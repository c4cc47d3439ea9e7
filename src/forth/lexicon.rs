use vstd::prelude::*;

verus! {

/// The characters that `char::is_ascii_whitespace` accepts.
pub open spec fn is_space(c: char) -> bool {
    c == ' ' || c == '\t' || c == '\n' || c == '\x0C' || c == '\r'
}

/// ASCII punctuation, as `char::is_ascii_punctuation` defines it.
pub open spec fn is_punctuation(c: char) -> bool {
    ('!' <= c <= '/') || (':' <= c <= '@') || ('[' <= c <= '`') || ('{' <= c <= '~')
}

pub open spec fn is_digit(c: char) -> bool {
    '0' <= c <= '9'
}

pub open spec fn is_ascii_letter(c: char) -> bool {
    ('a' <= c <= 'z') || ('A' <= c <= 'Z')
}

/// Whether `char::is_alphanumeric` accepts `c`.
pub uninterp spec fn alphanumeric_of(c: char) -> bool;

/// What `str::to_lowercase` makes of `s`.
pub uninterp spec fn lower_of(s: Seq<char>) -> Seq<char>;

/// Relies on `char::is_alphanumeric`: whether `c` is a Unicode letter or number.
#[verifier::external_body]
fn unicode_alphanumeric(c: char) -> (r: bool)
    ensures
        r == alphanumeric_of(c),
{
    c.is_alphanumeric()
}

/// Relies on `str::to_lowercase`: the Unicode lowercase form of `s`.
#[verifier::external_body]
fn unicode_lowercase(s: &str) -> (r: String)
    ensures
        r@ == lower_of(s@),
{
    s.to_lowercase()
}

/// Relies on `String::push`: appends `c` to `s`.
#[verifier::external_body]
fn push_char(s: &mut String, c: char)
    ensures
        final(s)@ == old(s)@.push(c),
{
    s.push(c);
}

/// A letter or a number: ASCII characters are decided here, the others by
/// their Unicode properties.
pub open spec fn is_word_char_alphanumeric(c: char) -> bool {
    if (c as u32) < 128 {
        is_ascii_letter(c) || is_digit(c)
    } else {
        alphanumeric_of(c)
    }
}

/// Whether every character of `s` is ASCII.
pub open spec fn all_ascii(s: Seq<char>) -> bool {
    forall|i: int| 0 <= i < s.len() ==> (s[i] as u32) < 128
}

/// `c` with `A`..`Z` mapped to `a`..`z`.
pub open spec fn ascii_lower_char(c: char) -> char {
    if 'A' <= c <= 'Z' {
        ((c as u32) + 32) as char
    } else {
        c
    }
}

/// The lowercase form of `s`: ASCII text letter by letter, other text by its
/// Unicode case mapping.
pub open spec fn lowercase_of(s: Seq<char>) -> Seq<char> {
    if all_ascii(s) {
        s.map_values(|c: char| ascii_lower_char(c))
    } else {
        lower_of(s)
    }
}

/// The value of a run of decimal digits.
pub open spec fn digits_value(s: Seq<char>) -> nat
    decreases s.len(),
{
    if s.len() == 0 {
        0
    } else {
        digits_value(s.drop_last()) * 10 + ((s.last() as nat) - 48) as nat
    }
}

pub open spec fn all_digits(s: Seq<char>) -> bool {
    forall|i: int| 0 <= i < s.len() ==> is_digit(s[i])
}

/// The number that `s` spells: an optional `-` and at least one decimal
/// digit, with a value in the range of `i16`.
pub open spec fn integer_literal(s: Seq<char>) -> Option<i16> {
    let negative = s.len() > 0 && s[0] == '-';
    let body = if negative {
        s.drop_first()
    } else {
        s
    };
    let v: int = if negative {
        -(digits_value(body) as int)
    } else {
        digits_value(body) as int
    };
    if body.len() > 0 && all_digits(body) && -0x8000 <= v <= 0x7fff {
        Some(v as i16)
    } else {
        None
    }
}

pub proof fn lemma_digits_value_grows(s: Seq<char>, k: int)
    requires
        0 <= k <= s.len(),
        all_digits(s),
    ensures
        digits_value(s.subrange(0, k)) <= digits_value(s),
    decreases s.len() - k,
{
    if k < s.len() {
        lemma_digits_value_grows(s, k + 1);
        let p = s.subrange(0, k + 1);
        assert(p.drop_last() =~= s.subrange(0, k));
        assert(digits_value(p) == digits_value(p.drop_last()) * 10 + ((p.last() as nat) - 48) as nat);
    } else {
        assert(s.subrange(0, k) =~= s);
    }
}

/// Reads `s` as an integer literal.
pub fn parse_integer(s: &str) -> (r: Option<i16>)
    ensures
        r == integer_literal(s@),
{
    let n = s.unicode_len();
    let negative = n > 0 && s.get_char(0) == '-';
    let start: usize = if negative {
        1
    } else {
        0
    };
    let ghost body = if negative {
        s@.drop_first()
    } else {
        s@
    };
    if start >= n {
        return None;
    }
    let mut acc: u32 = 0;
    let mut k: usize = start;
    while k < n
        invariant
            start <= k <= n,
            n == s@.len(),
            negative == (s@.len() > 0 && s@[0] == '-'),
            start == (if negative {
                1usize
            } else {
                0usize
            }),
            body == (if negative {
                s@.drop_first()
            } else {
                s@
            }),
            body == s@.subrange(start as int, n as int),
            all_digits(body.subrange(0, k - start)),
            acc == digits_value(body.subrange(0, k - start)),
            acc <= 0x8000,
        decreases n - k,
    {
        let c = s.get_char(k);
        if !('0' <= c && c <= '9') {
            proof {
                assert(!is_digit(body[k - start]));
                assert(!all_digits(body));
            }
            return None;
        }
        let ghost prev = body.subrange(0, k - start);
        acc = acc * 10 + (c as u32 - 48);
        k = k + 1;
        proof {
            assert(body.subrange(0, k - start).drop_last() =~= prev);
        }
        if acc > 0x8000 {
            proof {
                if all_digits(body) {
                    lemma_digits_value_grows(body, k - start);
                    assert(digits_value(body) > 0x8000);
                }
            }
            return None;
        }
    }
    proof {
        assert(body.subrange(0, n - start) =~= body);
    }
    if negative {
        Some((0 - acc as i32) as i16)
    } else if acc <= 0x7fff {
        Some(acc as i16)
    } else {
        None
    }
}

/// Whether `c` may stand in a word name.
pub fn is_name_char(c: char) -> (r: bool)
    ensures
        r == (is_word_char_alphanumeric(c) || is_punctuation(c)),
{
    if (c as u32) < 128 {
        ('a' <= c && c <= 'z') || ('A' <= c && c <= 'Z') || ('0' <= c && c <= '9') || ('!' <= c
            && c <= '/') || (':' <= c && c <= '@') || ('[' <= c && c <= '`') || ('{' <= c && c
            <= '~')
    } else {
        unicode_alphanumeric(c)
    }
}

/// `s` in lowercase.
pub fn to_lowercase(s: &str) -> (r: String)
    ensures
        r@ == lowercase_of(s@),
{
    let n = s.unicode_len();
    let mut i: usize = 0;
    while i < n
        invariant
            i <= n,
            n == s@.len(),
            forall|j: int| 0 <= j < i ==> (s@[j] as u32) < 128,
        decreases n - i,
    {
        if (s.get_char(i) as u32) >= 128 {
            return unicode_lowercase(s);
        }
        i = i + 1;
    }
    let mut out = String::new();
    let mut k: usize = 0;
    while k < n
        invariant
            k <= n,
            n == s@.len(),
            all_ascii(s@),
            out@ == s@.subrange(0, k as int).map_values(|c: char| ascii_lower_char(c)),
        decreases n - k,
    {
        let c = s.get_char(k);
        let lc: char = if 'A' <= c && c <= 'Z' {
            ((c as u8) + 32) as char
        } else {
            c
        };
        push_char(&mut out, lc);
        k = k + 1;
        proof {
            assert(out@ =~= s@.subrange(0, k as int).map_values(|c: char| ascii_lower_char(c)));
        }
    }
    proof {
        assert(s@.subrange(0, n as int) =~= s@);
    }
    out
}

} // verus!
