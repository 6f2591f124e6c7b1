//! Taking the commit-message text out of a provider's reply.
use vstd::prelude::*;

use crate::text::{append_chars, append_str, chars_of, string_of, string_views, trim, trim_chars};

verus! {

/// The parts of a text concatenated.
pub open spec fn concat(parts: Seq<Seq<char>>) -> Seq<char>
    decreases parts.len(),
{
    if parts.len() == 0 {
        seq![]
    } else {
        concat(parts.drop_last()) + parts.last()
    }
}

/// The error text for an empty Gemini answer.
pub open spec fn gemini_empty_error(finish_reason: Option<Seq<char>>) -> Seq<char> {
    "Gemini returned an empty commit message (finish reason: "@ + match finish_reason {
        Some(r) => r,
        None => "unknown"@,
    } + ")"@
}

/// The text of Gemini's first candidate: its parts joined and trimmed. An
/// error when there is no content or the text is blank.
pub fn gemini_message(parts: Option<&[String]>, finish_reason: Option<&str>) -> (r: Result<
    String,
    String,
>)
    ensures
        ({
            let text = match parts {
                Some(p) => trim(concat(string_views(p@))),
                None => seq![],
            };
            &&& text.len() > 0 ==> (r matches Ok(s) && s@ == text)
            &&& text.len() == 0 ==> (r matches Err(e) && e@ == gemini_empty_error(
                match finish_reason {
                    Some(f) => Some(f@),
                    None => None,
                },
            ))
        }),
{
    let mut text: Vec<char> = Vec::new();
    if let Some(p) = parts {
        let ghost ps = string_views(p@);
        let mut joined: Vec<char> = Vec::new();
        let mut i: usize = 0;
        while i < p.len()
            invariant
                0 <= i <= p@.len(),
                ps == string_views(p@),
                joined@ == concat(ps.take(i as int)),
            decreases p@.len() - i,
        {
            assert(ps.take(i + 1).drop_last() =~= ps.take(i as int));
            let piece = chars_of(p[i].as_str());
            append_chars(&mut joined, &piece);
            i += 1;
        }
        assert(ps.take(p@.len() as int) =~= ps);
        text = trim_chars(&joined);
    }
    if text.len() > 0 {
        return Ok(string_of(&text));
    }
    let mut e: Vec<char> = Vec::new();
    append_str(&mut e, "Gemini returned an empty commit message (finish reason: ");
    match finish_reason {
        Some(f) => append_str(&mut e, f),
        None => append_str(&mut e, "unknown"),
    }
    append_str(&mut e, ")");
    Err(string_of(&e))
}

/// The text of OpenAI's first choice: an error when the model refused, or
/// when the content is missing or blank; else the trimmed content.
pub fn openai_message(content: Option<&str>, refusal: Option<&str>) -> (r: Result<String, String>)
    ensures
        refusal matches Some(f) ==> (r matches Err(e) && e@
            == "OpenAI refused to generate a commit message: "@ + f@),
        refusal is None ==> match content {
            Some(c) if trim(c@).len() > 0 => r matches Ok(s) && s@ == trim(c@),
            _ => r matches Err(e) && e@ == "OpenAI returned an empty commit message"@,
        },
{
    if let Some(f) = refusal {
        let mut e: Vec<char> = Vec::new();
        append_str(&mut e, "OpenAI refused to generate a commit message: ");
        append_str(&mut e, f);
        return Err(string_of(&e));
    }
    if let Some(c) = content {
        let t = trim_chars(&chars_of(c));
        if t.len() > 0 {
            return Ok(string_of(&t));
        }
    }
    let e = chars_of("OpenAI returned an empty commit message");
    Err(string_of(&e))
}

} // verus!
