//! TOML documents whose entries are read and written by name, through the
//! `toml` crate.

use vstd::prelude::*;
use vstd::string::*;

verus! {

/// `toml::map::Map`, the crate's table type.
#[verifier::external_type_specification]
#[verifier::external_body]
#[verifier::reject_recursive_types(K)]
#[verifier::reject_recursive_types(V)]
pub struct ExTable<K, V>(toml::map::Map<K, V>);

/// `toml::Value`, the crate's value type.
#[verifier::external_type_specification]
#[verifier::external_body]
pub struct ExValue(toml::Value);

/// `toml::de::Error`, carried through as it is.
#[verifier::external_type_specification]
#[verifier::external_body]
pub struct ExReadError(toml::de::Error);

/// `toml::ser::Error`, carried through as it is.
#[verifier::external_type_specification]
#[verifier::external_body]
pub struct ExWriteError(toml::ser::Error);

/// What a table holds: for each key its text, or nothing where the value is
/// not a string.
pub uninterp spec fn entries(table: toml::Table) -> Map<Seq<char>, Option<Seq<char>>>;

/// What `toml::from_str` reads from a document as a table; nothing where it
/// reports an error.
pub uninterp spec fn document_entries(text: Seq<char>) -> Option<Map<Seq<char>, Option<Seq<char>>>>;

/// What `toml::to_string_pretty` writes for a table with these entries.
pub uninterp spec fn document_text(entries: Map<Seq<char>, Option<Seq<char>>>) -> Seq<char>;

/// The writer counts runs of equal quotation marks in one byte.
pub const QUOTE_RUN_LIMIT: usize = 256;

/// `quote` occurs so many times in a row that the writer cannot count them.
pub open spec fn has_run_of(s: Seq<char>, quote: char) -> bool {
    exists|start: int|
        0 <= start && start + QUOTE_RUN_LIMIT <= s.len() && (#[trigger] s.subrange(start, start + QUOTE_RUN_LIMIT))
            =~= Seq::new(QUOTE_RUN_LIMIT as nat, |i: int| quote)
}

/// The writer accepts `s` as a value.
pub open spec fn is_writable(s: Seq<char>) -> bool {
    !has_run_of(s, '\'') && !has_run_of(s, '"')
}

/// A key that is written without quotation marks.
pub open spec fn is_bare_key(s: Seq<char>) -> bool {
    &&& s.len() > 0
    &&& forall|i: int|
        0 <= i < s.len() ==> ('a' <= #[trigger] s[i] <= 'z' || 'A' <= s[i] <= 'Z' || '0' <= s[i] <= '9' || s[i] == '-'
            || s[i] == '_')
}

/// Every key is bare and every value is text that the writer accepts.
pub open spec fn are_writable(entries: Map<Seq<char>, Option<Seq<char>>>) -> bool {
    forall|key: Seq<char>| #[trigger]
        entries.contains_key(key) ==> is_bare_key(key) && (entries[key] matches Some(text) && is_writable(text))
}

/// Calls `toml::map::Map::new`. Trusted: the table is empty.
#[verifier::external_body]
pub(crate) fn new_table() -> (table: toml::Table)
    ensures
        entries(table).dom() == Set::<Seq<char>>::empty(),
{
    toml::Table::new()
}

/// Calls `toml::map::Map::insert` with a string value. Trusted: the table then
/// holds this text under the key, and is otherwise as it was.
#[verifier::external_body]
pub(crate) fn insert_text(table: &mut toml::Table, key: String, value: String)
    ensures
        entries(*final(table)) == entries(*old(table)).insert(key@, Some(value@)),
{
    table.insert(key, toml::Value::String(value));
}

/// Calls `toml::map::Map::get`. Trusted: nothing without an entry, `Some(None)`
/// for an entry that is not a string, and else the entry's text.
#[verifier::external_body]
pub(crate) fn get_text(table: &toml::Table, key: &str) -> (found: Option<Option<String>>)
    ensures
        found is Some <==> entries(*table).contains_key(key@),
        found matches Some(None) ==> entries(*table)[key@] == None::<Seq<char>>,
        found matches Some(Some(text)) ==> entries(*table)[key@] == Some(text@),
{
    match table.get(key) {
        None => None,
        Some(toml::Value::String(text)) => Some(Some(text.clone())),
        Some(_) => Some(None),
    }
}

/// Calls `toml::to_string_pretty`. Trusted: a table of bare keys and text is
/// always written, what is written depends on its entries alone, and
/// `toml::from_str` reads the same entries back from it. A run of 256 equal
/// quotation marks is left out, because the crate counts such a run in a `u8`
/// and panics on overflow where the build checks for it.
#[verifier::external_body]
pub(crate) fn write_document(table: &toml::Table) -> (written: Result<String, toml::ser::Error>)
    requires
        are_writable(entries(*table)),
    ensures
        written is Ok,
        written matches Ok(text) ==> text@ == document_text(entries(*table)) && document_entries(text@) == Some(
            entries(*table),
        ),
{
    toml::to_string_pretty(table)
}

/// Calls `toml::from_str` for a table. Trusted: whether it succeeds and what
/// entries it gives depends on the text alone.
#[verifier::external_body]
fn read_document(text: &str) -> (read: Result<toml::Table, toml::de::Error>)
    ensures
        read is Ok <==> document_entries(text@) is Some,
        read matches Ok(table) ==> document_entries(text@) == Some(entries(table)),
{
    toml::from_str(text)
}

/// `error` is what reading a document of this text can fail with.
pub closed spec fn can_fail_with(text: Seq<char>, error: toml::de::Error) -> bool {
    exists|given: &str| given@ == text && #[trigger] call_ensures(
        read_document,
        (given,),
        Err::<toml::Table, toml::de::Error>(error),
    )
}

/// Reads a document, and ties an error to the text that it came from.
pub(crate) fn read_table(text: &str) -> (read: Result<toml::Table, toml::de::Error>)
    ensures
        read is Ok <==> document_entries(text@) is Some,
        match read {
            Ok(table) => document_entries(text@) == Some(entries(table)),
            Err(error) => can_fail_with(text@, error),
        },
{
    read_document(text)
}

/// Calls `ToString::to_string` on a `toml::de::Error`. Nothing is assumed of
/// the words.
#[verifier::external_body]
fn describe_read_error(error: &toml::de::Error) -> String {
    error.to_string()
}

/// Calls `ToString::to_string` on a `toml::ser::Error`. Nothing is assumed of
/// the words.
#[verifier::external_body]
fn describe_write_error(error: &toml::ser::Error) -> String {
    error.to_string()
}

/// `words` is how the error can be put into words.
pub closed spec fn read_error_reads(error: &toml::de::Error, words: String) -> bool {
    call_ensures(describe_read_error, (error,), words)
}

/// The error in words.
pub(crate) fn read_error_words(error: &toml::de::Error) -> (words: String)
    ensures
        read_error_reads(error, words),
{
    describe_read_error(error)
}

/// `words` is how the error can be put into words.
pub closed spec fn write_error_reads(error: &toml::ser::Error, words: String) -> bool {
    call_ensures(describe_write_error, (error,), words)
}

/// The error in words.
pub(crate) fn write_error_words(error: &toml::ser::Error) -> (words: String)
    ensures
        write_error_reads(error, words),
{
    describe_write_error(error)
}

/// The last `count` characters before `end` are all `quote`.
spec fn run_ends_at(s: Seq<char>, quote: char, end: int, count: int) -> bool {
    &&& 0 <= count <= end <= s.len()
    &&& forall|i: int| end - count <= i < end ==> #[trigger] s[i] == quote
}

fn find_run_of(s: &str, quote: char) -> (found: bool)
    ensures
        found == has_run_of(s@, quote),
{
    let len = s.unicode_len();
    let mut at: usize = 0;
    let mut count: usize = 0;
    while at < len
        invariant
            at <= len,
            len == s@.len(),
            count < QUOTE_RUN_LIMIT,
            run_ends_at(s@, quote, at as int, count as int),
            count < at ==> s@[at - count - 1] != quote,
            forall|start: int|
                0 <= start && start + QUOTE_RUN_LIMIT <= at ==> !((#[trigger] s@.subrange(
                    start,
                    start + QUOTE_RUN_LIMIT,
                )) =~= Seq::new(QUOTE_RUN_LIMIT as nat, |i: int| quote)),
        decreases len - at,
    {
        let ghost before = at as int;
        if s.get_char(at) == quote {
            count = count + 1;
        } else {
            count = 0;
        }
        at = at + 1;
        if count == QUOTE_RUN_LIMIT {
            proof {
                let start = at - QUOTE_RUN_LIMIT;
                assert(s@.subrange(start, start + QUOTE_RUN_LIMIT) =~= Seq::new(
                    QUOTE_RUN_LIMIT as nat,
                    |i: int| quote,
                ));
            }
            return true;
        }
        assert forall|start: int| 0 <= start && start + QUOTE_RUN_LIMIT <= at implies !((#[trigger] s@.subrange(
            start,
            start + QUOTE_RUN_LIMIT,
        )) =~= Seq::new(QUOTE_RUN_LIMIT as nat, |i: int| quote)) by {
            if start + QUOTE_RUN_LIMIT == at {
                let stop = at - count - 1;
                assert(start <= stop < at);
                assert(s@[stop] != quote);
                assert(s@.subrange(start, start + QUOTE_RUN_LIMIT)[stop - start] == s@[stop]);
                assert(Seq::new(QUOTE_RUN_LIMIT as nat, |i: int| quote)[stop - start] == quote);
            }
        }
    }
    false
}

/// Whether the writer accepts `s` as a value.
pub fn writable(s: &str) -> (accepted: bool)
    ensures
        accepted == is_writable(s@),
{
    !find_run_of(s, '\'') && !find_run_of(s, '"')
}

/// The writer accepts every text of fewer than 256 characters, and every text
/// without quotation marks.
pub proof fn law_ordinary_text_is_writable(s: Seq<char>)
    requires
        s.len() < 256 || (forall|i: int| 0 <= i < s.len() ==> #[trigger] s[i] != '"' && s[i] != '\''),
    ensures
        is_writable(s),
{
    lemma_no_run_of(s, '"');
    lemma_no_run_of(s, '\'');
}

proof fn lemma_no_run_of(s: Seq<char>, quote: char)
    requires
        s.len() < 256 || (forall|i: int| 0 <= i < s.len() ==> #[trigger] s[i] != quote),
    ensures
        !has_run_of(s, quote),
{
    assert forall|start: int| 0 <= start && start + QUOTE_RUN_LIMIT <= s.len() implies !((#[trigger] s.subrange(
        start,
        start + QUOTE_RUN_LIMIT,
    )) =~= Seq::new(QUOTE_RUN_LIMIT as nat, |i: int| quote)) by {
        assert(s.subrange(start, start + QUOTE_RUN_LIMIT)[0] == s[start]);
        assert(Seq::new(QUOTE_RUN_LIMIT as nat, |i: int| quote)[0] == quote);
    }
}

/// The writer refuses a text with 256 quotation marks of one kind in a row,
/// wherever they stand.
pub proof fn law_long_runs_are_refused(before: Seq<char>, quote: char, after: Seq<char>, s: &str, accepted: bool)
    requires
        quote == '"' || quote == '\'',
        s@ == before + Seq::new(256, |i: int| quote) + after,
        call_ensures(writable, (s,), accepted),
    ensures
        !accepted,
{
    let start = before.len() as int;
    assert(s@.subrange(start, start + 256) =~= Seq::new(256, |i: int| quote));
}

} // verus!
