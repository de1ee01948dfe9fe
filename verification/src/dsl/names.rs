//! Identifiers derived from the quoted state and event names of the DSL.

use vstd::prelude::*;

verus! {

/// An ASCII letter or digit.
pub open spec fn is_ascii_alphanumeric(c: char) -> bool {
    ('0' <= c && c <= '9') || ('a' <= c && c <= 'z') || ('A' <= c && c <= 'Z')
}

/// An ASCII digit.
pub open spec fn is_ascii_digit(c: char) -> bool {
    '0' <= c && c <= '9'
}

/// The ASCII upper-case form of `c`; other characters are unchanged.
pub open spec fn ascii_upper(c: char) -> char {
    if 'a' <= c && c <= 'z' {
        ((c as u32) - 32) as char
    } else {
        c
    }
}

/// Keeps the ASCII letters and digits of `text`, upper-casing the first one
/// of every run; `capitalize` tells whether the first kept character starts a
/// run.
pub open spec fn pascal_words(text: Seq<char>, capitalize: bool) -> Seq<char>
    decreases text.len(),
{
    if text.len() == 0 {
        Seq::empty()
    } else if is_ascii_alphanumeric(text[0]) {
        seq![
            if capitalize {
                ascii_upper(text[0])
            } else {
                text[0]
            },
        ] + pascal_words(text.drop_first(), false)
    } else {
        pascal_words(text.drop_first(), true)
    }
}

/// The identifier that a quoted name such as `"fin wait 1"` denotes: its
/// words in PascalCase (`FinWait1`), `State` when it has no letter or digit,
/// and an `S` in front when it would start with a digit.
pub open spec fn state_ident_text(name: Seq<char>) -> Seq<char> {
    let words = pascal_words(name, true);
    let named = if words.len() == 0 {
        seq!['S', 't', 'a', 't', 'e']
    } else {
        words
    };
    if is_ascii_digit(named[0]) {
        seq!['S'] + named
    } else {
        named
    }
}

proof fn lemma_ascii_upper(c: char)
    ensures
        is_ascii_alphanumeric(c) ==> is_ascii_alphanumeric(ascii_upper(c)),
        is_ascii_digit(ascii_upper(c)) == is_ascii_digit(c),
        ascii_upper(ascii_upper(c)) == ascii_upper(c),
{
    if 'a' <= c && c <= 'z' {
        let code = (c as u32) - 32;
        assert(65 <= code <= 90);
        assert((code as char) as u32 == code);
    }
}

proof fn lemma_pascal_words_alphanumeric(text: Seq<char>, capitalize: bool)
    ensures
        forall|i: int|
            0 <= i < pascal_words(text, capitalize).len() ==> is_ascii_alphanumeric(
                #[trigger] pascal_words(text, capitalize)[i],
            ),
    decreases text.len(),
{
    if text.len() > 0 {
        lemma_pascal_words_alphanumeric(text.drop_first(), !is_ascii_alphanumeric(text[0]));
        if is_ascii_alphanumeric(text[0]) {
            lemma_ascii_upper(text[0]);
            let rest = pascal_words(text.drop_first(), false);
            assert forall|i: int|
                0 <= i < pascal_words(text, capitalize).len() implies is_ascii_alphanumeric(
                #[trigger] pascal_words(text, capitalize)[i],
            ) by {
                let first = if capitalize {
                    ascii_upper(text[0])
                } else {
                    text[0]
                };
                assert(pascal_words(text, capitalize) == seq![first] + rest);
                if i > 0 {
                    assert(pascal_words(text, capitalize)[i] == rest[i - 1]);
                } else {
                    assert(pascal_words(text, capitalize)[0] == first);
                }
            }
        } else {
            assert(pascal_words(text, capitalize) == pascal_words(text.drop_first(), true));
        }
    }
}

proof fn lemma_pascal_words_keeps_words(text: Seq<char>)
    requires
        forall|i: int| 0 <= i < text.len() ==> is_ascii_alphanumeric(#[trigger] text[i]),
    ensures
        pascal_words(text, false) == text,
        text.len() > 0 ==> pascal_words(text, true) == seq![ascii_upper(text[0])]
            + text.drop_first(),
    decreases text.len(),
{
    if text.len() > 0 {
        lemma_pascal_words_keeps_words(text.drop_first());
        assert(seq![text[0]] + text.drop_first() =~= text);
    }
}

proof fn lemma_pascal_words_starts_upper(text: Seq<char>)
    ensures
        pascal_words(text, true).len() > 0 ==> ascii_upper(pascal_words(text, true)[0])
            == pascal_words(text, true)[0],
    decreases text.len(),
{
    if text.len() > 0 {
        lemma_ascii_upper(text[0]);
        if !is_ascii_alphanumeric(text[0]) {
            lemma_pascal_words_starts_upper(text.drop_first());
        }
    }
}

/// Every derived identifier is a non-empty run of ASCII letters and digits
/// that does not start with a digit, so it is a valid Rust identifier.
pub proof fn law_state_ident_is_an_identifier(name: Seq<char>)
    ensures
        state_ident_text(name).len() > 0,
        !is_ascii_digit(state_ident_text(name)[0]),
        ascii_upper(state_ident_text(name)[0]) == state_ident_text(name)[0],
        forall|i: int|
            0 <= i < state_ident_text(name).len() ==> is_ascii_alphanumeric(
                #[trigger] state_ident_text(name)[i],
            ),
{
    lemma_pascal_words_alphanumeric(name, true);
    lemma_pascal_words_starts_upper(name);
    let words = pascal_words(name, true);
    let named = if words.len() == 0 {
        seq!['S', 't', 'a', 't', 'e']
    } else {
        words
    };
    assert forall|i: int| 0 <= i < named.len() implies is_ascii_alphanumeric(#[trigger] named[i]) by {
        if words.len() == 0 {
            assert(named[i] == seq!['S', 't', 'a', 't', 'e'][i]);
        }
    }
    if is_ascii_digit(named[0]) {
        let out = seq!['S'] + named;
        assert forall|i: int| 0 <= i < out.len() implies is_ascii_alphanumeric(#[trigger] out[i]) by {
            if i > 0 {
                assert(out[i] == named[i - 1]);
            }
        }
    }
}

/// Deriving an identifier from an identifier changes nothing.
pub proof fn law_state_ident_is_idempotent(name: Seq<char>)
    ensures
        state_ident_text(state_ident_text(name)) == state_ident_text(name),
{
    let ident = state_ident_text(name);
    law_state_ident_is_an_identifier(name);
    lemma_pascal_words_keeps_words(ident);
    assert(seq![ascii_upper(ident[0])] + ident.drop_first() =~= ident);
}

/// Builds a `String` from ASCII bytes by calling `String::from_utf8`. Claimed
/// of `from_utf8`: ASCII bytes are valid UTF-8 and decode to the characters
/// with the same codes, in order.
#[verifier::external_body]
fn ascii_string(bytes: Vec<u8>) -> (text: String)
    requires
        forall|i: int| 0 <= i < bytes.len() ==> bytes[i] < 128,
    ensures
        text@ == bytes@.map_values(|b: u8| b as char),
{
    match String::from_utf8(bytes) {
        Ok(text) => text,
        Err(_) => String::new(),
    }
}

/// Converts a quoted DSL name into the identifier of its state or event, for
/// example `"fin wait 1"` into `FinWait1`.
pub fn state_ident(value: &str) -> (ident: String)
    ensures
        ident@ == state_ident_text(value@),
{
    let length = value.unicode_len();
    let mut bytes: Vec<u8> = Vec::new();
    let mut uppercase = true;
    let mut index: usize = 0;
    assert(value@.skip(0) =~= value@);
    assert(bytes@.map_values(|b: u8| b as char) + pascal_words(value@, true) =~= pascal_words(
        value@,
        true,
    ));
    while index < length
        invariant
            length == value@.len(),
            index <= length,
            forall|i: int| 0 <= i < bytes.len() ==> bytes[i] < 128,
            bytes@.map_values(|b: u8| b as char) + pascal_words(
                value@.skip(index as int),
                uppercase,
            ) == pascal_words(value@, true),
        decreases length - index,
    {
        let character = value.get_char(index);
        let ghost rest = value@.skip(index as int);
        assert(rest[0] == character);
        assert(rest.drop_first() =~= value@.skip(index + 1));
        let ghost before = bytes@;
        if ('0' <= character && character <= '9') || ('a' <= character && character <= 'z') || (
        'A' <= character && character <= 'Z') {
            let code = character as u32;
            let byte: u8 = if uppercase && 'a' <= character && character <= 'z' {
                (code - 32) as u8
            } else {
                code as u8
            };
            bytes.push(byte);
            uppercase = false;
            assert(bytes@.map_values(|b: u8| b as char) =~= before.map_values(|b: u8| b as char).push(
                byte as char,
            ));
        } else {
            uppercase = true;
        }
        index = index + 1;
    }
    assert(value@.skip(length as int) =~= Seq::<char>::empty());
    if bytes.len() == 0 {
        bytes.push(83u8);
        bytes.push(116u8);
        bytes.push(97u8);
        bytes.push(116u8);
        bytes.push(101u8);
    }
    if bytes[0] >= 48u8 && bytes[0] <= 57u8 {
        bytes.insert(0, 83u8);
    }
    let ident = ascii_string(bytes);
    assert(ident@ =~= state_ident_text(value@));
    ident
}

/// The ASCII digits of a number, most significant first.
pub open spec fn decimal_bytes(n: nat) -> Seq<u8>
    decreases n,
{
    if n < 10 {
        seq![(48 + n) as u8]
    } else {
        decimal_bytes(n / 10).push((48 + n % 10) as u8)
    }
}

/// The decimal text of a number.
pub open spec fn decimal(n: nat) -> Seq<char> {
    decimal_bytes(n).map_values(|b: u8| b as char)
}

/// The candidate names for a fresh identifier: the base itself, then the
/// base followed by 1, 2, 3 and so on.
pub open spec fn candidate(base: Seq<char>, suffix: nat) -> Seq<char> {
    if suffix == 0 {
        base
    } else {
        base + decimal(suffix)
    }
}

/// Whether the candidate at a suffix is not reserved.
pub open spec fn free_at(reserved: Seq<Seq<char>>, base: Seq<char>) -> spec_fn(int) -> bool {
    |suffix: int| !reserved.contains(candidate(base, suffix as nat))
}

/// The least suffix whose candidate is not reserved.
pub open spec fn first_free(reserved: Seq<Seq<char>>, base: Seq<char>) -> int {
    super::machine::first_where(0, reserved.len() + 1int, free_at(reserved, base))
}

/// The digits of a number are digits.
proof fn lemma_decimal_digits(n: nat)
    ensures
        decimal_bytes(n).len() >= 1,
        forall|i: int| 0 <= i < decimal_bytes(n).len() ==> 48 <= #[trigger] decimal_bytes(n)[i] <= 57,
        n >= 10 ==> decimal_bytes(n).len() >= 2,
    decreases n,
{
    if n >= 10 {
        lemma_decimal_digits(n / 10);
    }
}

/// Different numbers have different digits.
proof fn lemma_decimal_injective(a: nat, b: nat)
    requires
        decimal_bytes(a) == decimal_bytes(b),
    ensures
        a == b,
    decreases a,
{
    lemma_decimal_digits(a);
    lemma_decimal_digits(b);
    let da = decimal_bytes(a);
    let db = decimal_bytes(b);
    if a < 10 && b < 10 {
        assert(da[0] == (48 + a) as u8);
        assert(db[0] == (48 + b) as u8);
    } else if a < 10 {
        assert(da.len() == 1);
    } else if b < 10 {
        assert(db.len() == 1);
    } else {
        assert(da.drop_last() == decimal_bytes(a / 10));
        assert(db.drop_last() == decimal_bytes(b / 10));
        lemma_decimal_injective(a / 10, b / 10);
        assert(da.last() == (48 + a % 10) as u8);
        assert(db.last() == (48 + b % 10) as u8);
        assert(a % 10 == b % 10);
        assert(a == 10 * (a / 10) + a % 10);
        assert(b == 10 * (b / 10) + b % 10);
    }
}

/// Different suffixes give different candidates.
proof fn lemma_candidates_differ(base: Seq<char>, a: nat, b: nat)
    requires
        a != b,
    ensures
        candidate(base, a) != candidate(base, b),
{
    lemma_decimal_digits(a);
    lemma_decimal_digits(b);
    if a != 0 && b != 0 && candidate(base, a) == candidate(base, b) {
        let da = decimal(a);
        let db = decimal(b);
        assert(da =~= candidate(base, a).skip(base.len() as int));
        assert(db =~= candidate(base, b).skip(base.len() as int));
        assert(decimal_bytes(a) =~= decimal_bytes(b)) by {
            assert forall|i: int| 0 <= i < decimal_bytes(a).len() implies decimal_bytes(a)[i] == decimal_bytes(b)[i] by {
                assert(da[i] == decimal_bytes(a)[i] as char);
                assert(db[i] == decimal_bytes(b)[i] as char);
            }
        }
        lemma_decimal_injective(a, b);
    } else if a == 0 && b != 0 {
        assert(candidate(base, b).len() > base.len());
    } else if b == 0 && a != 0 {
        assert(candidate(base, a).len() > base.len());
    }
}

/// Among the first `reserved.len() + 1` candidates one is not reserved.
proof fn lemma_some_candidate_free(reserved: Seq<Seq<char>>, base: Seq<char>)
    ensures
        0 <= first_free(reserved, base) <= reserved.len(),
        free_at(reserved, base)(first_free(reserved, base)),
        forall|k: int| 0 <= k < first_free(reserved, base) ==> !#[trigger] free_at(reserved, base)(k),
{
    let count = reserved.len() + 1int;
    super::machine::lemma_first_where(0, count, free_at(reserved, base));
    let first = first_free(reserved, base);
    if first == count {
        let taken = Seq::new(count as nat, |k: int| candidate(base, k as nat));
        assert forall|i: int, j: int| 0 <= i < taken.len() && 0 <= j < taken.len() && i != j implies taken[i] != taken[j] by {
            lemma_candidates_differ(base, i as nat, j as nat);
        }
        assert(taken.no_duplicates());
        taken.unique_seq_to_set();
        assert forall|name: Seq<char>| taken.to_set().contains(name) implies reserved.to_set().contains(name) by {
            let k = choose|k: int| 0 <= k < taken.len() && taken[k] == name;
            assert(!free_at(reserved, base)(k));
        }
        reserved.lemma_cardinality_of_set();
        vstd::set_lib::lemma_len_subset(taken.to_set(), reserved.to_set());
    }
}

/// Appends the decimal digits of `n` to `bytes`.
fn push_decimal(bytes: &mut Vec<u8>, n: usize)
    ensures
        final(bytes)@ == old(bytes)@ + decimal_bytes(n as nat),
    decreases n,
{
    if n >= 10 {
        push_decimal(bytes, n / 10);
    }
    let digit = (n % 10) as u8;
    bytes.push(48 + digit);
    proof {
        if n >= 10 {
            assert(old(bytes)@ + decimal_bytes(n as nat) =~= old(bytes)@ + decimal_bytes((n / 10) as nat) + seq![(48 + n % 10) as u8]);
        }
    }
}

/// Every decimal digit is an ASCII byte.
proof fn lemma_decimal_ascii(n: nat)
    ensures
        forall|i: int| 0 <= i < decimal_bytes(n).len() ==> 48 <= #[trigger] decimal_bytes(n)[i] < 58,
    decreases n,
{
    if n >= 10 {
        lemma_decimal_ascii(n / 10);
        let last = (48 + n % 10) as u8;
        assert(decimal_bytes(n) == decimal_bytes(n / 10).push(last));
        assert(48 <= last < 58);
    } else {
        assert(decimal_bytes(n) == seq![(48 + n) as u8]);
    }
}

/// The decimal text of a number.
pub(crate) fn decimal_string(n: usize) -> (text: String)
    ensures
        text@ == decimal(n as nat),
{
    let mut bytes: Vec<u8> = Vec::new();
    push_decimal(&mut bytes, n);
    proof {
        assert(bytes@ =~= decimal_bytes(n as nat));
        lemma_decimal_ascii(n as nat);
    }
    ascii_string(bytes)
}

/// Returns the first of `base`, `base1`, `base2`, ... that is not reserved,
/// and reserves it.
pub fn fresh_type_ident(reserved: &mut Vec<String>, base: &String) -> (name: String)
    ensures
        name@ == candidate(base@, first_free(name_texts(old(reserved)@), base@) as nat),
        name_texts(final(reserved)@) == name_texts(old(reserved)@).push(name@),
{
    let ghost taken = name_texts(reserved@);
    proof {
        lemma_some_candidate_free(taken, base@);
    }
    let size = reserved.len();
    let mut suffix: usize = 0;
    loop
        invariant
            taken.len() == size,
            reserved@ == old(reserved)@,
            taken == name_texts(reserved@),
            0 <= first_free(taken, base@) <= taken.len(),
            free_at(taken, base@)(first_free(taken, base@)),
            forall|k: int| 0 <= k < first_free(taken, base@) ==> !#[trigger] free_at(taken, base@)(k),
            suffix <= first_free(taken, base@),
        decreases first_free(taken, base@) - suffix,
    {
        let name = if suffix == 0 {
            base.clone()
        } else {
            let mut bytes: Vec<u8> = Vec::new();
            push_decimal(&mut bytes, suffix);
            proof {
                lemma_decimal_digits(suffix as nat);
                assert(bytes@ =~= decimal_bytes(suffix as nat));
            }
            let digits = ascii_string(bytes);
            let mut name = base.clone();
            name.append(digits.as_str());
            name
        };
        assert(name@ == candidate(base@, suffix as nat));
        if !contains_text(reserved, &name) {
            proof {
                assert(free_at(taken, base@)(suffix as int));
            }
            let copy = name.clone();
            reserved.push(copy);
            assert(name_texts(reserved@) =~= taken.push(name@));
            return name;
        }
        assert(!free_at(taken, base@)(suffix as int));
        suffix = suffix + 1;
    }
}

/// The texts of a list of names.
pub open spec fn name_texts(names: Seq<String>) -> Seq<Seq<char>> {
    names.map_values(|name: String| name@)
}

/// Whether `name` is among `names`.
pub(crate) fn contains_text(names: &Vec<String>, name: &String) -> (found: bool)
    ensures
        found == name_texts(names@).contains(name@),
{
    let mut index: usize = 0;
    while index < names.len()
        invariant
            index <= names@.len(),
            forall|i: int| 0 <= i < index ==> (#[trigger] names@[i])@ != name@,
        decreases names@.len() - index,
    {
        if names[index] == *name {
            assert(name_texts(names@)[index as int] == name@);
            return true;
        }
        index = index + 1;
    }
    proof {
        if name_texts(names@).contains(name@) {
            let i = choose|i: int| 0 <= i < names@.len() && #[trigger] name_texts(names@)[i] == name@;
            assert(names@[i]@ == name@);
        }
    }
    false
}

/// However many names are reserved, some candidate is free: the fresh
/// name is never one of them, and every earlier candidate is.
pub proof fn law_fresh_name_is_unreserved(reserved: Seq<Seq<char>>, base: Seq<char>)
    ensures
        0 <= first_free(reserved, base) <= reserved.len(),
        !reserved.contains(candidate(base, first_free(reserved, base) as nat)),
        forall|k: nat| k < first_free(reserved, base) ==> reserved.contains(#[trigger] candidate(base, k)),
{
    lemma_some_candidate_free(reserved, base);
    assert forall|k: nat| k < first_free(reserved, base) implies reserved.contains(#[trigger] candidate(base, k)) by {
        assert(!free_at(reserved, base)(k as int));
    }
}

} // verus!
