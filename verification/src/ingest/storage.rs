//! Where tables are stored.

use vstd::prelude::*;
use vstd::string::*;

use crate::identity::{format_uuid, uuid_text};
use crate::ingest::schema::TableName;
use crate::text::{chars_of, text_of};

verus! {

/// The first place from `from` on that holds no slash.
pub open spec fn skip_slashes(text: Seq<char>, from: int) -> int
    decreases text.len() - from,
{
    if 0 <= from < text.len() && text[from] == '/' {
        skip_slashes(text, from + 1)
    } else {
        from
    }
}

/// The place behind the last of the first `to` characters that is no slash, but not before `from`.
pub open spec fn drop_slashes(text: Seq<char>, from: int, to: int) -> int
    decreases to - from,
{
    if from < to && text[to - 1] == '/' {
        drop_slashes(text, from, to - 1)
    } else {
        to
    }
}

/// A path without the slashes at its ends.
pub open spec fn prefix_of(path: Seq<char>) -> Seq<char> {
    let start = skip_slashes(path, 0);
    path.subrange(start, drop_slashes(path, start, path.len() as int))
}

/// The key prefix that the path of a storage address gives.
pub fn storage_prefix(path: &str) -> (r: String)
    ensures
        r@ == prefix_of(path@),
{
    let chars: Vec<char> = chars_of(path);
    let mut start: usize = 0;
    while start < chars.len() && chars[start] == '/'
        invariant
            start <= chars@.len(),
            skip_slashes(chars@, 0) == skip_slashes(chars@, start as int),
        decreases chars@.len() - start,
    {
        start = start + 1;
    }
    let mut end: usize = chars.len();
    while start < end && chars[end - 1] == '/'
        invariant
            start <= end <= chars@.len(),
            drop_slashes(chars@, start as int, chars@.len() as int) == drop_slashes(
                chars@,
                start as int,
                end as int,
            ),
        decreases end - start,
    {
        end = end - 1;
    }
    let mut kept: Vec<char> = Vec::new();
    let mut index: usize = start;
    while index < end
        invariant
            start <= index <= end <= chars@.len(),
            kept@ == chars@.subrange(start as int, index as int),
        decreases end - index,
    {
        kept.push(chars[index]);
        assert(kept@ =~= chars@.subrange(start as int, index + 1));
        index = index + 1;
    }
    text_of(&kept)
}

/// The name of a table file.
pub fn parquet_file_name(id: u128) -> (r: String)
    ensures
        r@ == uuid_text(id) + ".parquet"@,
{
    format_uuid(id).concat(".parquet")
}

/// The path of a table object: the prefix, the table and the file, with slashes between them.
pub fn object_path(prefix: &str, table: &TableName, id: u128) -> (r: String)
    ensures
        r@ == prefix@ + "/"@ + table.spec_name() + "/"@ + uuid_text(id) + ".parquet"@,
{
    let file: String = parquet_file_name(id);
    let path: String = prefix.to_owned().concat("/").concat(table.as_str()).concat("/").concat(
        file.as_str(),
    );
    assert(path@ =~= prefix@ + "/"@ + table.spec_name() + "/"@ + uuid_text(id) + ".parquet"@);
    path
}

} // verus!
