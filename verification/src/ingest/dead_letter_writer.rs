//! The output of lines that were rejected.

use vstd::prelude::*;
use vstd::string::*;

use crate::ingest::stage_error::StageError;
use crate::json::{
    append_json, json_text, members_on_one_line, numbers_on_one_line, on_one_line, Json,
    JsonObject, JsonValue,
};

verus! {

/// Counts the rejected lines that went to an output.
#[derive(Debug)]
pub struct DeadLetterWriter<W> {
    pub inner: W,
    pub count: u64,
}

impl<W> DeadLetterWriter<W> {
    pub fn new(inner: W) -> (r: Self)
        ensures
            r.inner == inner,
            r.count == 0,
    {
        DeadLetterWriter { inner, count: 0 }
    }

    pub fn count(&self) -> (r: u64)
        ensures
            r == self.count,
    {
        self.count
    }

    pub fn inner(&self) -> (r: &W)
        ensures
            r == self.inner,
    {
        &self.inner
    }

    pub fn into_inner(self) -> (r: W)
        ensures
            r == self.inner,
    {
        self.inner
    }

    /// Counts a line that the output took.
    pub fn record_written(&mut self)
        requires
            old(self).count < u64::MAX,
        ensures
            final(self).count == counted(old(self).count as nat, true),
            final(self).inner == old(self).inner,
    {
        self.count = self.count + 1;
    }

    /// Hands on how the output took a line, and counts the line if it did.
    pub fn finish_write<E>(&mut self, outcome: Result<(), E>) -> (r: Result<(), E>)
        requires
            old(self).count < u64::MAX,
        ensures
            final(self).count == counted(old(self).count as nat, outcome is Ok),
            final(self).inner == old(self).inner,
            r == outcome,
    {
        if outcome.is_ok() {
            self.record_written();
        }
        outcome
    }
}

/// The count after the output took a line or failed to.
pub open spec fn counted(count: nat, written: bool) -> nat {
    if written {
        count + 1
    } else {
        count
    }
}

/// A rejected line that was handed to an output, and whether the output took it.
pub struct DeadLetterAttempt {
    pub raw: Seq<char>,
    pub message: Seq<char>,
    pub context: Json,
    pub written: bool,
}

/// The count that begins at zero, after attempts.
pub open spec fn count_after(attempts: Seq<DeadLetterAttempt>) -> nat
    decreases attempts.len(),
{
    if attempts.len() == 0 {
        0
    } else {
        counted(count_after(attempts.drop_last()), attempts.last().written)
    }
}

/// What an output holds after attempts, if a line that it failed to take left nothing behind.
pub open spec fn output_after(attempts: Seq<DeadLetterAttempt>) -> Seq<char>
    decreases attempts.len(),
{
    if attempts.len() == 0 {
        Seq::empty()
    } else {
        let last = attempts.last();
        output_after(attempts.drop_last()) + if last.written {
            dead_letter_line(last.raw, last.message, last.context)
        } else {
            Seq::empty()
        }
    }
}

/// The lines that an output took, in the order of the attempts.
pub open spec fn written_lines(attempts: Seq<DeadLetterAttempt>) -> Seq<Seq<char>>
    decreases attempts.len(),
{
    if attempts.len() == 0 {
        Seq::empty()
    } else {
        let last = attempts.last();
        if last.written {
            written_lines(attempts.drop_last()).push(
                dead_letter_line(last.raw, last.message, last.context),
            )
        } else {
            written_lines(attempts.drop_last())
        }
    }
}

/// The count is the number of lines that the output took. The output holds these lines one behind
/// another, and each ends with a line break.
pub proof fn written_lines_are_counted(attempts: Seq<DeadLetterAttempt>)
    ensures
        count_after(attempts) == written_lines(attempts).len(),
        output_after(attempts) == written_lines(attempts).flatten(),
        forall|i: int|
            0 <= i < written_lines(attempts).len() ==> (#[trigger] written_lines(
                attempts,
            )[i]).len() > 0 && written_lines(attempts)[i].last() == '\n',
    decreases attempts.len(),
{
    reveal_strlit("\n");
    if attempts.len() == 0 {
        assert(written_lines(attempts).flatten() =~= Seq::empty());
    } else {
        let less = written_lines(attempts.drop_last());
        written_lines_are_counted(attempts.drop_last());
        if attempts.last().written {
            let line = dead_letter_line(
                attempts.last().raw,
                attempts.last().message,
                attempts.last().context,
            );
            less.lemma_flatten_push(line);
            assert forall|i: int| 0 <= i < written_lines(attempts).len() implies (
            #[trigger] written_lines(attempts)[i]).len() > 0 && written_lines(attempts)[i].last()
                == '\n' by {
                if i < less.len() {
                    assert(less[i].len() > 0);
                }
            }
        } else {
            assert(output_after(attempts) =~= output_after(attempts.drop_last()));
        }
    }
}

/// What a rejected line is written as.
pub open spec fn dead_letter_line(
    raw: Seq<char>,
    message: Seq<char>,
    context: Json,
) -> Seq<char> {
    json_text(
        Json::Object(
            seq![
                ("@context"@, context),
                ("@error"@, Json::Text(message)),
                ("@message"@, Json::Text(raw)),
            ],
        ),
    ) + "\n"@
}

/// Writes a rejected line, why it was rejected, and where it came from, as one line of JSON. No line
/// break stands in it but the last character, unless a number of the context holds one.
pub fn format_dead_letter(raw: &str, error: &StageError, context: JsonValue) -> (r: String)
    requires
        error@.complete(),
    ensures
        r@ == dead_letter_line(raw@, error@.message(), context.model()),
        numbers_on_one_line(context.model()) ==> on_one_line(r@.drop_last()),
{
    let message: String = error.to_string();
    let ghost model = context.model();
    let mut members: Vec<(String, JsonValue)> = Vec::new();
    members.push(("@context".to_owned(), context));
    members.push(("@error".to_owned(), JsonValue::String(message)));
    members.push(("@message".to_owned(), JsonValue::String(raw.to_owned())));
    let object: JsonObject = JsonObject { members };
    proof {
        crate::json::lemma_object_model(object);
        assert(object@ =~= seq![
            ("@context"@, model),
            ("@error"@, Json::Text(error@.message())),
            ("@message"@, Json::Text(raw@)),
        ]);
    }
    proof {
        if numbers_on_one_line(model) {
            reveal_with_fuel(members_on_one_line, 4);
            assert(object@.subrange(0, 2)[1].1 == Json::Text(error@.message()));
            assert(object@.subrange(0, 2).subrange(0, 1)[0].1 == model);
            assert(members_on_one_line(object@));
        }
    }
    let mut line: String = String::new();
    append_json(&mut line, &JsonValue::Object(object));
    let ghost record = line@;
    line.append("\n");
    proof {
        reveal_strlit("\n");
        assert(line@.drop_last() =~= record);
    }
    assert(line@ =~= dead_letter_line(raw@, error@.message(), model));
    line
}

} // verus!
