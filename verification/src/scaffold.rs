//! The rules by which an empty solution file is made for a Project Euler
//! problem: where the problem is found, what is taken from its page, how the
//! file is named and what it holds. Fetching the page and writing the file are
//! left to the caller.

use crate::decimal::{decimal_string, decimal_text};
use crate::markup::{class_texts, element_texts, page_texts, views, MAX_PAGE_LENGTH};
use crate::text::{trim, trimmed};
use crate::wrapping::{fill, filled};
use vstd::prelude::*;

verus! {

/// The number of columns to which a problem's description is filled.
pub const PROBLEM_DESCRIPTION_WIDTH: usize = 40;

/// What can go wrong while a solution file is made.
#[derive(Debug, Clone, Copy, PartialEq, Eq, Structural)]
pub enum Error {
    /// The page of the problem with this number could not be fetched.
    FetchProblemFailed(usize),
    /// The page of the problem with this number could not be read for its
    /// title: it is too long to be parsed, or it holds none.
    ParseHtml(usize),
    /// A solution file for the problem with this number is there already.
    SolutionAlreadyExists(usize),
}

/// What a solution file says about its problem.
pub struct Problem {
    pub title: String,
    pub description: String,
}

/// The address of the page of problem `id`.
pub open spec fn url_text(id: nat) -> Seq<char> {
    "https://projecteuler.net"@ + "/problem="@ + decimal_text(id)
}

/// The decimal notation of `n`, with zeros in front where it has fewer than
/// `width` digits.
pub open spec fn zero_padded(n: nat, width: nat) -> Seq<char> {
    let digits = decimal_text(n);
    if digits.len() >= width {
        digits
    } else {
        Seq::new((width - digits.len()) as nat, |i: int| '0') + digits
    }
}

/// The name of the solution file of problem `id`.
pub open spec fn file_name_text(id: nat) -> Seq<char> {
    "p"@ + zero_padded(id, 3) + ".rs"@
}

/// The texts of `parts`, one after the other.
pub open spec fn joined(parts: Seq<Seq<char>>) -> Seq<char>
    decreases parts.len(),
{
    if parts.len() == 0 {
        Seq::empty()
    } else {
        joined(parts.drop_last()) + parts.last()
    }
}

/// The contents of a solution file: a comment with the problem's address,
/// its title and its description as filled lines, then the template and a
/// last line break.
pub open spec fn solution_text(
    url: Seq<char>,
    title: Seq<char>,
    lines: Seq<char>,
    template: Seq<char>,
) -> Seq<char> {
    "/*\n["@ + url + "]\n\n"@ + title + "\n\n"@ + lines + "\n*/\n\n"@ + template + "\n"@
}

/// What an error says of itself.
pub open spec fn message_text(error: Error) -> Seq<char> {
    match error {
        Error::FetchProblemFailed(id) => "failed to fetch problem "@ + decimal_text(id as nat),
        Error::ParseHtml(id) => "failed to parse html for problem "@ + decimal_text(id as nat),
        Error::SolutionAlreadyExists(id) => "solution already exists "@ + decimal_text(id as nat),
    }
}

impl Error {
    /// The error in words, for a person to read.
    pub fn message(&self) -> (text: String)
        ensures
            text@ == message_text(*self),
    {
        let (mut text, id) = match self {
            Error::FetchProblemFailed(id) => (String::from_str("failed to fetch problem "), *id),
            Error::ParseHtml(id) => (String::from_str("failed to parse html for problem "), *id),
            Error::SolutionAlreadyExists(id) => (
                String::from_str("solution already exists "),
                *id,
            ),
        };
        text.append(decimal_string(id as u64).as_str());
        text
    }
}

/// The address of the page of problem `id`.
pub fn get_url(id: usize) -> (url: String)
    ensures
        url@ == url_text(id as nat),
{
    let mut url = String::from_str("https://projecteuler.net");
    url.append("/problem=");
    url.append(decimal_string(id as u64).as_str());
    url
}

/// The name of the solution file of problem `id`: the letter p, the number
/// in at least three digits, and the extension.
pub fn solution_file_name(id: usize) -> (name: String)
    ensures
        name@ == file_name_text(id as nat),
{
    let number = decimal_string(id as u64);
    let digits = number.as_str().unicode_len();
    let mut name = String::from_str("p");
    let mut written: usize = digits;
    while written < 3
        invariant
            digits <= written,
            digits == decimal_text(id as nat).len(),
            digits >= 3 ==> name@ == "p"@,
            digits < 3 ==> written <= 3 && name@ == "p"@ + Seq::new(
                (written - digits) as nat,
                |i: int| '0',
            ),
        decreases 3 - written,
    {
        proof {
            reveal_strlit("0");
        }
        name.append("0");
        written += 1;
    }
    assert(name@ + number@ =~= "p"@ + zero_padded(id as nat, 3));
    name.append(number.as_str());
    name.append(".rs");
    name
}

/// Makes the problem out of what its page holds: the title is the first
/// heading, the description the texts of the content elements, joined and
/// trimmed. A page without a heading is refused.
pub fn assemble_problem(id: usize, contents: &Vec<String>, headings: &Vec<String>) -> (result:
    Result<Problem, Error>)
    ensures
        match result {
            Ok(problem) => {
                &&& headings@.len() > 0
                &&& problem.title@ == headings@[0]@
                &&& problem.description@ == trimmed(joined(views(contents@)))
            },
            Err(error) => headings@.len() == 0 && error == Error::ParseHtml(id),
        },
{
    let mut text = String::new();
    let mut i: usize = 0;
    while i < contents.len()
        invariant
            i <= contents@.len(),
            text@ == joined(views(contents@).take(i as int)),
        decreases contents@.len() - i,
    {
        proof {
            let parts = views(contents@);
            assert(parts.take(i + 1).drop_last() =~= parts.take(i as int));
        }
        text.append(contents[i].as_str());
        i += 1;
    }
    assert(views(contents@).take(i as int) =~= views(contents@));
    let description = String::from_str(trim(text.as_str()));

    if headings.len() == 0 {
        return Err(Error::ParseHtml(id));
    }
    let title = String::from_str(headings[0].as_str());
    Ok(Problem { title, description })
}

/// Reads the problem with number `id` off its page. A page of more than
/// `MAX_PAGE_LENGTH` characters is refused unread, as is one without a
/// heading.
pub fn parse_problem(id: usize, page: &str) -> (result: Result<Problem, Error>)
    ensures
        match result {
            Ok(problem) => {
                &&& page@.len() <= MAX_PAGE_LENGTH
                &&& element_texts(page@, "h2"@).len() > 0
                &&& problem.title@ == element_texts(page@, "h2"@)[0]
                &&& problem.description@ == trimmed(
                    joined(class_texts(page@, "problem_content"@)),
                )
            },
            Err(error) => {
                &&& page@.len() > MAX_PAGE_LENGTH || element_texts(page@, "h2"@).len() == 0
                &&& error == Error::ParseHtml(id)
            },
        },
{
    if page.unicode_len() > MAX_PAGE_LENGTH {
        return Err(Error::ParseHtml(id));
    }
    let (contents, headings) = page_texts(page, "problem_content", "h2");
    assemble_problem(id, &contents, &headings)
}

/// Puts a solution file together from its parts, the description being
/// filled already.
pub fn compose_solution(url: &str, title: &str, lines: &str, template: &str) -> (text: String)
    ensures
        text@ == solution_text(url@, title@, lines@, template@),
{
    let mut text = String::from_str("/*\n[");
    text.append(url);
    text.append("]\n\n");
    text.append(title);
    text.append("\n\n");
    text.append(lines);
    text.append("\n*/\n\n");
    text.append(template);
    text.append("\n");
    text
}

/// The contents of the solution file for a problem found at `url`: its
/// description is filled to lines of forty columns.
pub fn render_solution(url: &str, problem: &Problem, template: &str) -> (text: String)
    ensures
        text@ == solution_text(
            url@,
            problem.title@,
            filled(problem.description@, PROBLEM_DESCRIPTION_WIDTH as nat),
            template@,
        ),
{
    let lines = fill(problem.description.as_str(), PROBLEM_DESCRIPTION_WIDTH);
    compose_solution(url, problem.title.as_str(), lines.as_str(), template)
}

} // verus!
