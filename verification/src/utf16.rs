//! Zero-terminated UTF-16 text, in which the audio interface gives and takes
//! device IDs.

use vstd::prelude::*;
use vstd::string::*;

verus! {

/// The UTF-16 code units of one character.
pub open spec fn encode_char(c: char) -> Seq<u16> {
    let u = c as int;
    if u < 0x1_0000 {
        seq![u as u16]
    } else {
        seq![(0xd800 + (u - 0x1_0000) / 0x400) as u16, (0xdc00 + (u - 0x1_0000) % 0x400) as u16]
    }
}

/// The UTF-16 code units of a text.
pub open spec fn encode(s: Seq<char>) -> Seq<u16>
    decreases s.len(),
{
    if s.len() == 0 {
        seq![]
    } else {
        encode(s.drop_last()) + encode_char(s.last())
    }
}

pub open spec fn is_high_surrogate(unit: u16) -> bool {
    0xd800 <= unit <= 0xdbff
}

pub open spec fn is_low_surrogate(unit: u16) -> bool {
    0xdc00 <= unit <= 0xdfff
}

/// The text that UTF-16 code units stand for. A surrogate without its partner
/// stands for U+FFFD.
pub open spec fn decode(units: Seq<u16>) -> Seq<char>
    decreases units.len(),
{
    if units.len() == 0 {
        seq![]
    } else if is_high_surrogate(units[0]) && units.len() > 1 && is_low_surrogate(units[1]) {
        seq![(0x1_0000 + (units[0] - 0xd800) * 0x400 + (units[1] - 0xdc00)) as char] + decode(units.skip(2))
    } else if is_high_surrogate(units[0]) || is_low_surrogate(units[0]) {
        seq!['\u{fffd}'] + decode(units.skip(1))
    } else {
        seq![units[0] as char] + decode(units.skip(1))
    }
}

/// Where the terminating zero stands, from `from` on; the length if there is
/// none.
pub open spec fn nul_at(units: Seq<u16>, from: int) -> int
    decreases units.len() - from,
{
    if from >= units.len() {
        units.len() as int
    } else if units[from] == 0 {
        from
    } else {
        nul_at(units, from + 1)
    }
}

/// The units before the terminating zero.
pub open spec fn until_nul(units: Seq<u16>) -> Seq<u16> {
    units.take(nul_at(units, 0))
}

/// Calls `String::from_utf16_lossy`. Trusted: the units are decoded as UTF-16,
/// and each surrogate without its partner becomes U+FFFD.
#[verifier::external_body]
fn decode_lossy(units: &[u16]) -> (text: String)
    ensures
        text@ == decode(units@),
{
    String::from_utf16_lossy(units)
}

/// `s` as UTF-16 with a terminating zero.
pub fn wide(s: &str) -> (units: Vec<u16>)
    ensures
        units@ == encode(s@).push(0),
{
    let len = s.unicode_len();
    let mut units: Vec<u16> = Vec::new();
    let mut at: usize = 0;
    assert(s@.take(0).len() == 0);
    while at < len
        invariant
            at <= len,
            len == s@.len(),
            units@ == encode(s@.take(at as int)),
        decreases len - at,
    {
        let c = s.get_char(at);
        assert(s@.take(at + 1).drop_last() =~= s@.take(at as int));
        let u: u32 = c as u32;
        if u < 0x1_0000 {
            units.push(u as u16);
            assert(units@ =~= encode(s@.take(at + 1)));
        } else {
            units.push((0xd800 + (u - 0x1_0000) / 0x400) as u16);
            units.push((0xdc00 + (u - 0x1_0000) % 0x400) as u16);
            assert(units@ =~= encode(s@.take(at + 1)));
        }
        at = at + 1;
    }
    assert(s@.take(len as int) =~= s@);
    units.push(0);
    units
}

proof fn lemma_nul_at(units: Seq<u16>, from: int, at: int)
    requires
        0 <= from <= at <= units.len(),
        forall|i: int| from <= i < at ==> #[trigger] units[i] != 0,
        at < units.len() ==> units[at] == 0,
    ensures
        nul_at(units, from) == at,
    decreases at - from,
{
    if from < at {
        lemma_nul_at(units, from + 1, at);
    }
}

/// The text before the terminating zero; the empty text where there is no
/// string at all.
pub fn pwstr_to_string(units: Option<Vec<u16>>) -> (text: String)
    ensures
        text@ == (match units {
            Some(given) => decode(until_nul(given@)),
            None => seq![],
        }),
{
    match units {
        None => String::new(),
        Some(given) => {
            let mut before: Vec<u16> = Vec::new();
            let mut at: usize = 0;
            while at < given.len() && given[at] != 0
                invariant
                    at <= given@.len(),
                    before@ == given@.take(at as int),
                    forall|i: int| 0 <= i < at ==> #[trigger] given@[i] != 0,
                decreases given@.len() - at,
            {
                before.push(given[at]);
                at = at + 1;
                assert(before@ =~= given@.take(at as int));
            }
            proof {
                lemma_nul_at(given@, 0, at as int);
            }
            decode_lossy(before.as_slice())
        },
    }
}

/// `id` is the string that `target` holds. A target without a terminating zero
/// matches what it is a prefix of.
pub open spec fn is_match(target: Seq<u16>, id: Option<Seq<u16>>) -> bool {
    match id {
        None => false,
        Some(units) => if nul_at(target, 0) < target.len() {
            until_nul(units) == until_nul(target)
        } else {
            target.len() <= until_nul(units).len() && until_nul(units).take(target.len() as int) == target
        },
    }
}

proof fn lemma_prefix_is_match(target: Seq<u16>, units: Seq<u16>, at: int)
    requires
        0 <= at <= target.len(),
        at <= units.len(),
        forall|i: int| 0 <= i < at ==> #[trigger] target[i] != 0 && units[i] == target[i],
        at < target.len() ==> target[at] != (if at < units.len() {
            units[at]
        } else {
            0
        }) || target[at] == 0,
    ensures
        at == target.len() ==> is_match(target, Some(units)),
        at < target.len() ==> (is_match(target, Some(units)) <==> target[at] == (if at < units.len() {
            units[at]
        } else {
            0
        })),
{
    let n = nul_at(target, 0);
    let m = nul_at(units, 0);
    lemma_nul_bounds(target, 0);
    lemma_nul_bounds(units, 0);
    assert(n >= at) by {
        if n < at {
            assert(target[n] != 0);
        }
    }
    assert(m >= at) by {
        if m < at {
            assert(target[m] != 0 && units[m] == target[m]);
        }
    }
    if at == target.len() {
        assert(until_nul(units).take(at) =~= target);
    } else {
        let c = if at < units.len() {
            units[at]
        } else {
            0u16
        };
        if target[at] == 0 {
            lemma_nul_at(target, 0, at);
            if c == 0 {
                lemma_nul_at(units, 0, at);
                assert(until_nul(units) =~= until_nul(target));
            } else {
                assert(m > at);
                assert(until_nul(units).len() == m && until_nul(target).len() == at);
            }
        } else {
            assert(n > at);
            if is_match(target, Some(units)) {
                if n < target.len() {
                    assert(until_nul(target)[at] == target[at]);
                    assert(until_nul(units)[at] == units[at]);
                } else {
                    assert(until_nul(units).take(target.len() as int)[at] == target[at]);
                    assert(until_nul(units)[at] == units[at]);
                }
            }
        }
    }
}

proof fn lemma_nul_bounds(units: Seq<u16>, from: int)
    requires
        0 <= from <= units.len(),
    ensures
        from <= nul_at(units, from) <= units.len(),
        nul_at(units, from) < units.len() ==> units[nul_at(units, from)] == 0,
        forall|i: int| from <= i < nul_at(units, from) ==> #[trigger] units[i] != 0,
    decreases units.len() - from,
{
    if from < units.len() && units[from] != 0 {
        lemma_nul_bounds(units, from + 1);
    }
}

/// Whether `id` is the string that `target` holds. Only events of the pinned
/// device are of interest.
pub fn id_matches(target: &Vec<u16>, id: Option<&Vec<u16>>) -> (matches: bool)
    ensures
        matches == is_match(
            target@,
            match id {
                Some(units) => Some(units@),
                None => None,
            },
        ),
{
    let units = match id {
        None => return false,
        Some(units) => units,
    };
    let mut at: usize = 0;
    while at < target.len()
        invariant
            at <= target@.len(),
            at <= units@.len(),
            forall|i: int| 0 <= i < at ==> #[trigger] target@[i] != 0 && units@[i] == target@[i],
            id matches Some(given) && given@ == units@,
        decreases target@.len() - at,
    {
        let wanted: u16 = target[at];
        let given: u16 = if at < units.len() {
            units[at]
        } else {
            0
        };
        if given != wanted {
            proof {
                lemma_prefix_is_match(target@, units@, at as int);
            }
            return false;
        }
        if wanted == 0 {
            proof {
                lemma_prefix_is_match(target@, units@, at as int);
            }
            return true;
        }
        at = at + 1;
    }
    proof {
        lemma_prefix_is_match(target@, units@, at as int);
    }
    true
}

proof fn lemma_encode_first(s: Seq<char>)
    requires
        s.len() > 0,
    ensures
        encode(s) == encode_char(s[0]) + encode(s.skip(1)),
    decreases s.len(),
{
    if s.len() == 1 {
        assert(s.drop_last().len() == 0 && s.skip(1).len() == 0);
        assert(encode(s.drop_last()) =~= seq![]);
        assert(encode(s) =~= encode_char(s[0]) + encode(s.skip(1)));
    } else {
        lemma_encode_first(s.drop_last());
        assert(s.drop_last().skip(1) =~= s.skip(1).drop_last());
        assert(encode(s) =~= encode_char(s[0]) + encode(s.skip(1)));
    }
}

proof fn lemma_decode_first(c: char, rest: Seq<u16>)
    ensures
        decode(encode_char(c) + rest) == seq![c] + decode(rest),
{
    let u = c as int;
    let units = encode_char(c) + rest;
    if u < 0x1_0000 {
        assert(units[0] == u);
        assert(units.skip(1) =~= rest);
    } else {
        let v = u - 0x1_0000;
        assert(units[0] == 0xd800 + v / 0x400);
        assert(units[1] == 0xdc00 + v % 0x400);
        assert(units.skip(2) =~= rest);
        assert((units[0] - 0xd800) * 0x400 + (units[1] - 0xdc00) == v);
    }
}

/// Text survives the way to UTF-16 and back.
pub proof fn law_decode_undoes_encode(s: Seq<char>)
    ensures
        decode(encode(s)) == s,
    decreases s.len(),
{
    if s.len() > 0 {
        lemma_encode_first(s);
        lemma_decode_first(s[0], encode(s.skip(1)));
        law_decode_undoes_encode(s.skip(1));
        assert(seq![s[0]] + s.skip(1) =~= s);
    } else {
        assert(decode(encode(s)) =~= s);
    }
}

/// The text has no zero character, so that a terminating zero ends it.
pub open spec fn is_nul_free(s: Seq<char>) -> bool {
    forall|i: int| 0 <= i < s.len() ==> #[trigger] s[i] != '\0'
}

proof fn lemma_encode_char_nul_free(c: char)
    requires
        c != '\0',
    ensures
        forall|i: int| 0 <= i < encode_char(c).len() ==> #[trigger] encode_char(c)[i] != 0,
{
    let u = c as int;
    let units = encode_char(c);
    if u < 0x1_0000 {
        assert(units[0] == u);
    } else {
        let v = u - 0x1_0000;
        assert(units[0] == 0xd800 + v / 0x400);
        assert(units[1] == 0xdc00 + v % 0x400);
    }
}

proof fn lemma_encode_nul_free(s: Seq<char>)
    requires
        is_nul_free(s),
    ensures
        forall|i: int| 0 <= i < encode(s).len() ==> #[trigger] encode(s)[i] != 0,
    decreases s.len(),
{
    if s.len() > 0 {
        let head = s.drop_last();
        assert forall|i: int| 0 <= i < head.len() implies #[trigger] head[i] != '\0' by {
            assert(head[i] == s[i]);
        }
        lemma_encode_nul_free(head);
        assert(s[s.len() - 1] != '\0');
        let units = encode(s);
        assert forall|i: int| 0 <= i < units.len() implies #[trigger] units[i] != 0 by {
            if i < encode(head).len() {
                assert(units[i] == encode(head)[i]);
            } else {
                let c = s.last();
                let at = i - encode(head).len();
                assert(units[i] == encode_char(c)[at]);
                lemma_encode_char_nul_free(c);
            }
        }
    }
}

/// What `wide` makes of a text ends at its own terminating zero.
proof fn lemma_wide_ends(s: Seq<char>)
    requires
        is_nul_free(s),
    ensures
        nul_at(encode(s).push(0), 0) == encode(s).len(),
        until_nul(encode(s).push(0)) == encode(s),
{
    lemma_encode_nul_free(s);
    let units = encode(s).push(0);
    assert forall|i: int| 0 <= i < encode(s).len() implies #[trigger] units[i] != 0 by {
        assert(units[i] == encode(s)[i]);
    }
    lemma_nul_at(units, 0, encode(s).len() as int);
    assert(until_nul(units) =~= encode(s));
}

/// A text without zero characters reads back from its zero-terminated form.
pub proof fn law_wide_reads_back(s: Seq<char>)
    requires
        is_nul_free(s),
    ensures
        decode(until_nul(encode(s).push(0))) == s,
{
    lemma_wide_ends(s);
    law_decode_undoes_encode(s);
}

/// Zero-terminated IDs match exactly when they are the same text.
pub proof fn law_ids_match_when_equal(target: Seq<char>, id: Seq<char>)
    requires
        is_nul_free(target),
        is_nul_free(id),
    ensures
        is_match(encode(target).push(0), Some(encode(id).push(0))) <==> target == id,
{
    lemma_wide_ends(target);
    lemma_wide_ends(id);
    law_decode_undoes_encode(target);
    law_decode_undoes_encode(id);
}

/// A text that is made zero-terminated ends in a zero, and reads back as
/// itself.
pub proof fn law_wide_text_survives(s: &str, units: Vec<u16>, text: String)
    requires
        forall|i: int| 0 <= i < s@.len() ==> #[trigger] s@[i] != '\0',
        call_ensures(wide, (s,), units),
        call_ensures(pwstr_to_string, (Some(units),), text),
    ensures
        units@.last() == 0,
        forall|i: int| 0 <= i < units@.len() - 1 ==> #[trigger] units@[i] != 0,
        text@ == s@,
{
    assert(is_nul_free(s@));
    law_wide_reads_back(s@);
    lemma_encode_nul_free(s@);
    assert forall|i: int| 0 <= i < units@.len() - 1 implies #[trigger] units@[i] != 0 by {
        assert(units@[i] == encode(s@)[i]);
    }
}

proof fn lemma_encode_char(c: char)
    ensures
        c as int <= 0xffff ==> encode_char(c).len() == 1 && encode_char(c)[0] == c as int,
        c as int > 0xffff ==> encode_char(c).len() == 2 && 0xd800 <= encode_char(c)[0] < 0xdc00 && 0xdc00
            <= encode_char(c)[1] < 0xe000 && (encode_char(c)[0] - 0xd800) * 0x400 + (encode_char(c)[1] - 0xdc00)
            + 0x1_0000 == c as int,
{
    let u = c as int;
    let units = encode_char(c);
    if u > 0xffff {
        let v = u - 0x1_0000;
        assert(units[0] == 0xd800 + v / 0x400);
        assert(units[1] == 0xdc00 + v % 0x400);
    }
}

proof fn lemma_plain_units(s: Seq<char>)
    requires
        forall|i: int| 0 <= i < s.len() ==> (#[trigger] s[i]) as int <= 0xffff,
    ensures
        encode(s).len() == s.len(),
        forall|i: int| 0 <= i < s.len() ==> #[trigger] encode(s)[i] == s[i] as int,
    decreases s.len(),
{
    if s.len() > 0 {
        let head = s.drop_last();
        assert forall|i: int| 0 <= i < head.len() implies (#[trigger] head[i]) as int <= 0xffff by {
            assert(head[i] == s[i]);
        }
        lemma_plain_units(head);
        assert(s[s.len() - 1] as int <= 0xffff);
        lemma_encode_char(s.last());
        assert forall|i: int| 0 <= i < s.len() implies #[trigger] encode(s)[i] == s[i] as int by {
            if i < head.len() {
                assert(encode(s)[i] == encode(head)[i]);
                assert(head[i] == s[i]);
            }
        }
    }
}

/// Characters of the basic plane are their own code units, one for each.
pub proof fn law_plain_text_is_its_codes(s: &str, units: Vec<u16>)
    requires
        forall|i: int| 0 <= i < s@.len() ==> (#[trigger] s@[i]) as int <= 0xffff,
        call_ensures(wide, (s,), units),
    ensures
        units@.len() == s@.len() + 1,
        forall|i: int| 0 <= i < s@.len() ==> #[trigger] units@[i] == s@[i] as int,
        units@.last() == 0,
{
    lemma_plain_units(s@);
    assert forall|i: int| 0 <= i < s@.len() implies #[trigger] units@[i] == s@[i] as int by {
        assert(units@[i] == encode(s@)[i]);
    }
}

/// A character past the basic plane takes two units that carry its number
/// between them.
pub proof fn law_astral_character_takes_two_units(s: &str, units: Vec<u16>)
    requires
        s@.len() == 1,
        s@[0] as int > 0xffff,
        call_ensures(wide, (s,), units),
    ensures
        units@.len() == 3,
        0xd800 <= units@[0] < 0xdc00,
        0xdc00 <= units@[1] < 0xe000,
        (units@[0] - 0xd800) * 0x400 + (units@[1] - 0xdc00) + 0x1_0000 == s@[0] as int,
        units@[2] == 0,
{
    assert(s@.drop_last().len() == 0);
    assert(encode(s@.drop_last()) =~= seq![]);
    assert(encode(s@) =~= encode_char(s@[0]));
    lemma_encode_char(s@[0]);
}

/// Encoding goes character by character: the units of two texts in a row are
/// those of the first and then those of the second.
pub proof fn law_encoding_joins(a: Seq<char>, b: Seq<char>)
    ensures
        encode(a + b) == encode(a) + encode(b),
    decreases b.len(),
{
    if b.len() == 0 {
        assert(a + b =~= a);
        assert(encode(a) + encode(b) =~= encode(a));
    } else {
        assert((a + b).drop_last() =~= a + b.drop_last());
        law_encoding_joins(a, b.drop_last());
        assert(encode(a + b) =~= encode(a) + encode(b));
    }
}

/// What stands after the terminating zero does not matter, and no string at
/// all reads as the empty text.
pub proof fn law_text_ends_at_the_zero(
    first: Vec<u16>,
    second: Vec<u16>,
    end: int,
    one: String,
    other: String,
    nothing: String,
)
    requires
        0 <= end < first@.len(),
        end < second@.len(),
        first@[end] == 0,
        second@[end] == 0,
        first@.take(end) == second@.take(end),
        call_ensures(pwstr_to_string, (Some(first),), one),
        call_ensures(pwstr_to_string, (Some(second),), other),
        call_ensures(pwstr_to_string, (None::<Vec<u16>>,), nothing),
    ensures
        one@ == other@,
        nothing@ == Seq::<char>::empty(),
{
    let n = nul_at(first@, 0);
    lemma_nul_bounds(first@, 0);
    lemma_nul_bounds(second@, 0);
    assert(n <= end) by {
        if n > end {
            assert(first@[end] != 0);
        }
    }
    let m = nul_at(second@, 0);
    assert(m <= end) by {
        if m > end {
            assert(second@[end] != 0);
        }
    }
    assert forall|i: int| 0 <= i < end implies #[trigger] first@[i] == second@[i] by {
        assert(first@.take(end)[i] == first@[i]);
        assert(second@.take(end)[i] == second@[i]);
    }
    if n < m {
        assert(second@[n] != 0);
        assert(first@[n] == second@[n]);
    } else if m < n {
        assert(first@[m] != 0);
        assert(first@[m] == second@[m]);
    }
    assert(until_nul(first@) =~= until_nul(second@));
}

/// The pinned device is recognised by its ID and by nothing else: made
/// zero-terminated, two IDs match exactly when they are the same text.
pub proof fn law_device_is_known_by_its_id(
    target: &str,
    id: &str,
    target_units: Vec<u16>,
    id_units: Vec<u16>,
    known: bool,
    nothing: bool,
)
    requires
        forall|i: int| 0 <= i < target@.len() ==> #[trigger] target@[i] != '\0',
        forall|i: int| 0 <= i < id@.len() ==> #[trigger] id@[i] != '\0',
        call_ensures(wide, (target,), target_units),
        call_ensures(wide, (id,), id_units),
        call_ensures(id_matches, (&target_units, Some(&id_units)), known),
        call_ensures(id_matches, (&target_units, None::<&Vec<u16>>), nothing),
    ensures
        known <==> target@ == id@,
        !nothing,
{
    law_ids_match_when_equal(target@, id@);
}

/// The text comes back from its units without the terminating zero, too.
pub proof fn law_unterminated_text_survives(s: &str, units: Vec<u16>, given: Vec<u16>, text: String)
    requires
        forall|i: int| 0 <= i < s@.len() ==> #[trigger] s@[i] != '\0',
        call_ensures(wide, (s,), units),
        given@ == units@.drop_last(),
        call_ensures(pwstr_to_string, (Some(given),), text),
    ensures
        text@ == s@,
{
    lemma_encode_nul_free(s@);
    assert(given@ =~= encode(s@));
    lemma_nul_at(given@, 0, given@.len() as int);
    assert(until_nul(given@) =~= given@);
    law_decode_undoes_encode(s@);
}

/// It makes no difference whether the units of an ID end with the ID or with a
/// terminating zero and anything behind it.
pub proof fn law_device_is_known_however_its_id_ends(
    target: &str,
    id: &str,
    target_units: Vec<u16>,
    id_units: Vec<u16>,
    given: Vec<u16>,
    known: bool,
)
    requires
        forall|i: int| 0 <= i < target@.len() ==> #[trigger] target@[i] != '\0',
        forall|i: int| 0 <= i < id@.len() ==> #[trigger] id@[i] != '\0',
        call_ensures(wide, (target,), target_units),
        call_ensures(wide, (id,), id_units),
        given@.len() >= id_units@.len() - 1,
        given@.take(id_units@.len() - 1) == id_units@.drop_last(),
        given@.len() >= id_units@.len() ==> given@[id_units@.len() - 1] == 0,
        call_ensures(id_matches, (&target_units, Some(&given)), known),
    ensures
        known <==> target@ == id@,
{
    let n = id_units@.len() - 1;
    lemma_encode_nul_free(id@);
    assert(id_units@.drop_last() =~= encode(id@));
    assert forall|i: int| 0 <= i < n implies #[trigger] given@[i] != 0 by {
        assert(given@.take(n)[i] == encode(id@)[i]);
    }
    lemma_nul_at(given@, 0, n);
    assert(until_nul(given@) =~= encode(id@));
    lemma_wide_ends(target@);
    law_decode_undoes_encode(target@);
    law_decode_undoes_encode(id@);
}

/// A target without a terminating zero matches what it is the beginning of.
pub proof fn law_bare_target_matches_a_beginning(target: Vec<u16>, given: Vec<u16>, known: bool)
    requires
        forall|i: int| 0 <= i < target@.len() ==> #[trigger] target@[i] != 0,
        call_ensures(id_matches, (&target, Some(&given)), known),
    ensures
        known <==> given@.len() >= target@.len() && given@.take(target@.len() as int) == target@,
{
    let n = target@.len() as int;
    lemma_nul_at(target@, 0, n);
    lemma_nul_bounds(given@, 0);
    let m = nul_at(given@, 0);
    if given@.len() >= n && given@.take(n) == target@ {
        if m < n {
            assert(given@.take(n)[m] == given@[m]);
            assert(target@[m] != 0);
        }
        assert(until_nul(given@).take(n) =~= target@);
    }
    if known {
        assert(given@.take(n) =~= until_nul(given@).take(n));
    }
}

} // verus!
