//! Small verified helpers on text: case folding, optional-text comparison
//! and decimal rendering of integers.
use vstd::prelude::*;
use vstd::utf8::is_ascii_chars;

verus! {

/// What `str::to_lowercase` returns for a string: its Unicode lower-case form.
pub uninterp spec fn lowercase(s: Seq<char>) -> Seq<char>;

/// The lower-case form of an ASCII character: `A`..`Z` become `a`..`z`,
/// every other character stays.
pub open spec fn ascii_lower_char(c: char) -> char {
    if 'A' <= c <= 'Z' {
        ((c as int) + 32) as char
    } else {
        c
    }
}

/// The lower-case form of an ASCII text, character by character.
pub open spec fn ascii_lowercase(s: Seq<char>) -> Seq<char> {
    s.map_values(|c: char| ascii_lower_char(c))
}

/// Calls `str::to_lowercase`. The contract claims that the result is the
/// lower-case form of the argument, a function of the argument alone, and
/// that on ASCII text it maps `A`..`Z` to `a`..`z` and keeps every other
/// character (the Unicode lower-case mapping of ASCII characters). What the
/// form is for other text is left unsaid.
#[verifier::external_body]
pub(crate) fn to_lowercase(s: &str) -> (r: String)
    ensures
        r@ == lowercase(s@),
        is_ascii_chars(s@) ==> r@ == ascii_lowercase(s@),
{
    s.to_lowercase()
}

/// Equality of two optional texts, compared by content.
pub fn same_text(a: &Option<String>, b: &Option<String>) -> (r: bool)
    ensures
        r == (a.deep_view() == b.deep_view()),
{
    match (a, b) {
        (Some(x), Some(y)) => *x == *y,
        (None, None) => true,
        _ => false,
    }
}

/// A copy of an optional text with the same content.
pub fn copy_text(a: &Option<String>) -> (r: Option<String>)
    ensures
        r.deep_view() == a.deep_view(),
{
    match a {
        Some(x) => Some(x.clone()),
        None => None,
    }
}

/// The character of a decimal digit.
pub open spec fn digit_char(d: nat) -> char
    recommends
        d < 10,
{
    if d == 0 {
        '0'
    } else if d == 1 {
        '1'
    } else if d == 2 {
        '2'
    } else if d == 3 {
        '3'
    } else if d == 4 {
        '4'
    } else if d == 5 {
        '5'
    } else if d == 6 {
        '6'
    } else if d == 7 {
        '7'
    } else if d == 8 {
        '8'
    } else {
        '9'
    }
}

/// The decimal rendering of a natural number, without sign or leading zeros.
pub open spec fn decimal(n: nat) -> Seq<char>
    decreases n,
{
    if n < 10 {
        seq![digit_char(n)]
    } else {
        decimal(n / 10).push(digit_char(n % 10))
    }
}

fn digit_str(d: u64) -> (s: &'static str)
    requires
        d < 10,
    ensures
        s@ == seq![digit_char(d as nat)],
{
    if d == 0 {
        proof { reveal_strlit("0"); }
        "0"
    } else if d == 1 {
        proof { reveal_strlit("1"); }
        "1"
    } else if d == 2 {
        proof { reveal_strlit("2"); }
        "2"
    } else if d == 3 {
        proof { reveal_strlit("3"); }
        "3"
    } else if d == 4 {
        proof { reveal_strlit("4"); }
        "4"
    } else if d == 5 {
        proof { reveal_strlit("5"); }
        "5"
    } else if d == 6 {
        proof { reveal_strlit("6"); }
        "6"
    } else if d == 7 {
        proof { reveal_strlit("7"); }
        "7"
    } else if d == 8 {
        proof { reveal_strlit("8"); }
        "8"
    } else {
        proof { reveal_strlit("9"); }
        "9"
    }
}

/// Renders `n` in decimal, as `u64::to_string` does.
pub fn decimal_string(n: u64) -> (s: String)
    ensures
        s@ == decimal(n as nat),
    decreases n,
{
    if n < 10 {
        String::from_str(digit_str(n))
    } else {
        let mut s = decimal_string(n / 10);
        s.append(digit_str(n % 10));
        s
    }
}

/// How an update turns an optional field `existing` into `wanted`: set it when
/// `wanted` holds a value, clear it when `wanted` is absent and `existing` is
/// not, and leave it out when both are absent.
pub open spec fn field_change(wanted: Option<Seq<char>>, existing: Option<Seq<char>>) -> Option<
    Option<Seq<char>>,
> {
    match wanted {
        Some(w) => Some(Some(w)),
        None => if existing is Some {
            Some(None)
        } else {
            None
        },
    }
}

/// The update of an optional field from `existing` to `wanted`.
pub fn field_change_of(wanted: &Option<String>, existing: &Option<String>) -> (r: Option<
    Option<String>,
>)
    ensures
        r.deep_view() == field_change(wanted.deep_view(), existing.deep_view()),
{
    match wanted {
        Some(w) => Some(Some(w.clone())),
        None => match existing {
            Some(_) => Some(None),
            None => None,
        },
    }
}

/// Whether `a` and `b` are the same text up to the case of ASCII letters.
pub open spec fn same_up_to_ascii_case(a: Seq<char>, b: Seq<char>) -> bool {
    &&& a.len() == b.len()
    &&& forall|i: int|
        0 <= i < a.len() ==> #[trigger] a[i] == b[i] || ('A' <= a[i] <= 'Z' && b[i] as int
            == a[i] as int + 32) || ('A' <= b[i] <= 'Z' && a[i] as int == b[i] as int + 32)
}

/// Two texts that differ only in the case of ASCII letters have the same
/// ASCII lower-case form.
pub proof fn lemma_ascii_lowercase_ignores_case(a: Seq<char>, b: Seq<char>)
    requires
        same_up_to_ascii_case(a, b),
    ensures
        ascii_lowercase(a) == ascii_lowercase(b),
{
    assert forall|i: int| 0 <= i < a.len() implies ascii_lowercase(a)[i] == ascii_lowercase(b)[i] by {
        assert(a[i] == b[i] || ('A' <= a[i] <= 'Z' && b[i] as int == a[i] as int + 32) || (
        'A' <= b[i] <= 'Z' && a[i] as int == b[i] as int + 32));
    }
    assert(ascii_lowercase(a) =~= ascii_lowercase(b));
}

} // verus!
