//! Lines and the events that they are.

use vstd::prelude::*;
use vstd::utf8::encode_utf8;

use crate::ingest::event::{EventContext, RawEvent};
use crate::ingest::stage_error::{StageError, StageErrorView};
use crate::json::{lemma_object_model, Json, JsonObject, JsonValue};
use crate::text::{chars_of, decimal, decimal_text, text_of};

verus! {

/// The line that an event came from.
#[derive(Debug, Clone)]
pub struct LineSourceEventContext {
    pub line_no: u64,
    pub file_path: Option<String>,
}

impl LineSourceEventContext {
    /// The context as a JSON value.
    pub open spec fn json(self) -> Json {
        Json::Object(
            seq![
                (
                    "file_path"@,
                    match self.file_path {
                        Some(path) => Json::Text(path@),
                        None => Json::Null,
                    },
                ),
                ("line_no"@, Json::Number(decimal_text(self.line_no as nat))),
            ],
        )
    }
}

impl EventContext for LineSourceEventContext {
    fn to_json(&self) -> (r: JsonValue)
        ensures
            r.model() == self.json(),
    {
        let mut members: Vec<(String, JsonValue)> = Vec::new();
        let path: JsonValue = match &self.file_path {
            Some(path) => JsonValue::String(path.clone()),
            None => JsonValue::Null,
        };
        let ghost path_model = path.model();
        assert(path_model == match self.file_path {
            Some(path) => Json::Text(path@),
            None => Json::Null,
        });
        members.push(("file_path".to_owned(), path));
        members.push(("line_no".to_owned(), JsonValue::Number(decimal(self.line_no))));
        let object: JsonObject = JsonObject { members };
        proof {
            lemma_object_model(object);
            assert(object@ =~= seq![
                ("file_path"@, path_model),
                ("line_no"@, Json::Number(decimal_text(self.line_no as nat))),
            ]);
            assert(self.json()->Object_0 =~= object@);
        }
        JsonValue::Object(object)
    }
}

/// Whether a character has the Unicode property `White_Space`.
pub open spec fn is_whitespace(c: char) -> bool {
    let scalar = c as u32;
    ||| 0x9 <= scalar <= 0xd
    ||| scalar == 0x20
    ||| scalar == 0x85
    ||| scalar == 0xa0
    ||| scalar == 0x1680
    ||| 0x2000 <= scalar <= 0x200a
    ||| scalar == 0x2028
    ||| scalar == 0x2029
    ||| scalar == 0x202f
    ||| scalar == 0x205f
    ||| scalar == 0x3000
}

fn whitespace(c: char) -> (r: bool)
    ensures
        r == is_whitespace(c),
{
    let scalar: u32 = c as u32;
    0x9 <= scalar && scalar <= 0xd || scalar == 0x20 || scalar == 0x85 || scalar == 0xa0 || scalar
        == 0x1680 || 0x2000 <= scalar && scalar <= 0x200a || scalar == 0x2028 || scalar == 0x2029
        || scalar == 0x202f || scalar == 0x205f || scalar == 0x3000
}

/// The first place from `from` on that holds no whitespace.
pub open spec fn text_start(text: Seq<char>, from: int) -> int
    decreases text.len() - from,
{
    if 0 <= from < text.len() && is_whitespace(text[from]) {
        text_start(text, from + 1)
    } else {
        from
    }
}

/// The place behind the last of the first `to` characters that is no whitespace, but not before
/// `from`.
pub open spec fn text_end(text: Seq<char>, from: int, to: int) -> int
    decreases to - from,
{
    if from < to && is_whitespace(text[to - 1]) {
        text_end(text, from, to - 1)
    } else {
        to
    }
}

/// A text without the whitespace at its ends.
pub open spec fn trimmed(text: Seq<char>) -> Seq<char> {
    let start = text_start(text, 0);
    text.subrange(start, text_end(text, start, text.len() as int))
}

/// Removes the whitespace at the ends of a text.
pub fn trim(text: &str) -> (r: String)
    ensures
        r@ == trimmed(text@),
{
    let chars: Vec<char> = chars_of(text);
    let mut start: usize = 0;
    while start < chars.len() && whitespace(chars[start])
        invariant
            start <= chars@.len(),
            text_start(chars@, 0) == text_start(chars@, start as int),
        decreases chars@.len() - start,
    {
        start = start + 1;
    }
    let mut end: usize = chars.len();
    while start < end && whitespace(chars[end - 1])
        invariant
            start <= end <= chars@.len(),
            text_end(chars@, start as int, chars@.len() as int) == text_end(
                chars@,
                start as int,
                end as int,
            ),
        decreases end - start,
    {
        end = end - 1;
    }
    let mut kept: Vec<char> = Vec::new();
    let mut index: usize = start;
    while index < end
        invariant
            start <= index <= end <= chars@.len(),
            kept@ == chars@.subrange(start as int, index as int),
        decreases end - index,
    {
        kept.push(chars[index]);
        assert(kept@ =~= chars@.subrange(start as int, index + 1));
        index = index + 1;
    }
    text_of(&kept)
}

/// What a line is.
#[derive(Debug)]
pub enum LineOutcome {
    /// The line holds whitespace alone.
    Blank,
    /// The line is an event, or is too long to be one.
    Read(Result<RawEvent<LineSourceEventContext>, StageError>),
}

/// Counts lines and bounds their length.
#[derive(Debug)]
pub struct LineSource {
    pub line_no: u64,
    pub max_line_byte_count: usize,
}

impl LineSource {
    pub fn new(max_line_byte_count: usize) -> (r: Self)
        ensures
            r.line_no == 0,
            r.max_line_byte_count == max_line_byte_count,
    {
        LineSource { line_no: 0, max_line_byte_count }
    }

    /// Takes the next line. Blank lines are not counted.
    pub fn accept(&mut self, line: &str) -> (r: LineOutcome)
        requires
            old(self).line_no < u64::MAX,
        ensures
            final(self).max_line_byte_count == old(self).max_line_byte_count,
            line_taken(
                *old(self),
                trimmed(line@),
                r,
                *final(self),
            ),
    {
        let line: String = trim(line);
        self.accept_trimmed(line.as_str())
    }

    /// Takes the next line, of which the whitespace at the ends was removed.
    pub fn accept_trimmed(&mut self, line: &str) -> (r: LineOutcome)
        requires
            old(self).line_no < u64::MAX,
        ensures
            final(self).max_line_byte_count == old(self).max_line_byte_count,
            line_taken(*old(self), line@, r, *final(self)),
    {
        if line.is_empty() {
            return LineOutcome::Blank;
        }
        self.line_no = self.line_no + 1;
        match check_line_size(line, self.max_line_byte_count) {
            Err(e) => LineOutcome::Read(Err(e)),
            Ok(_) => LineOutcome::Read(
                Ok(
                    RawEvent {
                        raw: line.to_owned(),
                        context: LineSourceEventContext { line_no: self.line_no, file_path: None },
                    },
                ),
            ),
        }
    }
}

/// What taking a trimmed line leads to.
pub open spec fn line_taken(
    before: LineSource,
    line: Seq<char>,
    outcome: LineOutcome,
    after: LineSource,
) -> bool {
    let size = encode_utf8(line).len();
    if line.len() == 0 {
        outcome is Blank && after.line_no == before.line_no
    } else {
        &&& after.line_no == before.line_no + 1
        &&& match outcome {
            LineOutcome::Blank => false,
            LineOutcome::Read(Err(e)) => size > before.max_line_byte_count && e@
                == (StageErrorView::LineTooLarge {
                size: size as usize,
                max: before.max_line_byte_count,
            }),
            LineOutcome::Read(Ok(event)) => {
                &&& size <= before.max_line_byte_count
                &&& event.raw@ == line
                &&& event.context.line_no == after.line_no
                &&& event.context.file_path is None
            },
        }
    }
}

/// Tests the length of a line in bytes.
pub fn check_line_size(raw: &str, max: usize) -> (r: Result<(), StageError>)
    ensures
        match r {
            Ok(_) => encode_utf8(raw@).len() <= max,
            Err(e) => encode_utf8(raw@).len() > max && e@ == (StageErrorView::LineTooLarge {
                size: encode_utf8(raw@).len() as usize,
                max,
            }),
        },
{
    let bytes: &[u8] = raw.as_bytes();
    let size: usize = bytes.len();
    if size > max {
        return Err(StageError::LineTooLarge { size, max });
    }
    Ok(())
}

} // verus!
