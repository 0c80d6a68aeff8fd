//! Whitespace, trimming and decimal numbers.
use vstd::prelude::*;
use vstd::utf8::encode_utf8;

verus! {

/// Rust's `char::is_whitespace`: the Unicode `White_Space` property.
pub open spec fn is_whitespace(c: char) -> bool {
    let u = c as u32;
    ||| 0x09 <= u <= 0x0d
    ||| u == 0x20
    ||| u == 0x85
    ||| u == 0xa0
    ||| u == 0x1680
    ||| 0x2000 <= u <= 0x200a
    ||| u == 0x2028
    ||| u == 0x2029
    ||| u == 0x202f
    ||| u == 0x205f
    ||| u == 0x3000
}

/// The text holds nothing but whitespace (the empty text among others).
pub open spec fn is_blank(s: Seq<char>) -> bool {
    forall|i: int| 0 <= i < s.len() ==> is_whitespace(#[trigger] s[i])
}

/// How many whitespace characters `s` starts with.
pub open spec fn leading_whitespace(s: Seq<char>) -> nat
    decreases s.len(),
{
    if s.len() > 0 && is_whitespace(s[0]) {
        1 + leading_whitespace(s.drop_first())
    } else {
        0
    }
}

/// How many whitespace characters `s` ends with.
pub open spec fn trailing_whitespace(s: Seq<char>) -> nat
    decreases s.len(),
{
    if s.len() > 0 && is_whitespace(s.last()) {
        1 + trailing_whitespace(s.drop_last())
    } else {
        0
    }
}

/// `s` without its leading and trailing whitespace, as `str::trim` gives it.
pub open spec fn trimmed(s: Seq<char>) -> Seq<char> {
    if is_blank(s) {
        Seq::empty()
    } else {
        s.subrange(leading_whitespace(s) as int, s.len() - trailing_whitespace(s))
    }
}

/// Calls `str::trim`.
///
/// Trusted: std documents that `trim` removes leading and trailing characters with the
/// Unicode `White_Space` property; `trimmed` states that over `is_whitespace`.
#[verifier::external_body]
pub(crate) fn trim(s: &str) -> (r: &str)
    ensures
        r@ == trimmed(s@),
{
    s.trim()
}

pub proof fn lemma_leading_whitespace(s: Seq<char>)
    ensures
        leading_whitespace(s) <= s.len(),
        forall|i: int| 0 <= i < leading_whitespace(s) ==> is_whitespace(#[trigger] s[i]),
        leading_whitespace(s) < s.len() ==> !is_whitespace(s[leading_whitespace(s) as int]),
    decreases s.len(),
{
    if s.len() > 0 && is_whitespace(s[0]) {
        lemma_leading_whitespace(s.drop_first());
        assert forall|i: int| 0 <= i < leading_whitespace(s) implies is_whitespace(
            #[trigger] s[i],
        ) by {
            if i > 0 {
                assert(s[i] == s.drop_first()[i - 1]);
            }
        }
    }
}

pub proof fn lemma_trailing_whitespace(s: Seq<char>)
    ensures
        trailing_whitespace(s) <= s.len(),
        forall|i: int|
            s.len() - trailing_whitespace(s) <= i < s.len() ==> is_whitespace(#[trigger] s[i]),
        trailing_whitespace(s) < s.len() ==> !is_whitespace(
            s[s.len() - 1 - trailing_whitespace(s)],
        ),
    decreases s.len(),
{
    if s.len() > 0 && is_whitespace(s.last()) {
        lemma_trailing_whitespace(s.drop_last());
        assert forall|i: int|
            s.len() - trailing_whitespace(s) <= i < s.len() implies is_whitespace(
            #[trigger] s[i],
        ) by {
            if i < s.len() - 1 {
                assert(s[i] == s.drop_last()[i]);
            }
        }
    }
}

/// The trimmed text is empty exactly when the text is blank.
pub proof fn lemma_trimmed_empty(s: Seq<char>)
    ensures
        trimmed(s).len() == 0 <==> is_blank(s),
{
    if !is_blank(s) {
        let k: int = choose|k: int| 0 <= k < s.len() && !is_whitespace(s[k]);
        lemma_leading_whitespace(s);
        lemma_trailing_whitespace(s);
        assert(leading_whitespace(s) <= k);
        assert(k < s.len() - trailing_whitespace(s));
    }
}

/// Whether `s` holds nothing but whitespace, which is when `s.trim()` is empty.
pub fn is_blank_text(s: &str) -> (r: bool)
    ensures
        r == is_blank(s@),
{
    proof {
        lemma_trimmed_empty(s@);
    }
    trim(s).is_empty()
}

/// The ASCII digit for `d`.
pub open spec fn digit_char(d: nat) -> char {
    (('0' as u32) + d) as char
}

/// The decimal numeral for `n`, without leading zeros.
pub open spec fn decimal_text(n: nat) -> Seq<char>
    decreases n,
{
    if n < 10 {
        seq![digit_char(n)]
    } else {
        decimal_text(n / 10) + seq![digit_char(n % 10)]
    }
}

fn digit_text(d: usize) -> (r: &'static str)
    requires
        d < 10,
    ensures
        r@ == seq![digit_char(d as nat)],
{
    proof {
        reveal_strlit("0");
        reveal_strlit("1");
        reveal_strlit("2");
        reveal_strlit("3");
        reveal_strlit("4");
        reveal_strlit("5");
        reveal_strlit("6");
        reveal_strlit("7");
        reveal_strlit("8");
        reveal_strlit("9");
    }
    if d == 0 {
        "0"
    } else if d == 1 {
        "1"
    } else if d == 2 {
        "2"
    } else if d == 3 {
        "3"
    } else if d == 4 {
        "4"
    } else if d == 5 {
        "5"
    } else if d == 6 {
        "6"
    } else if d == 7 {
        "7"
    } else if d == 8 {
        "8"
    } else {
        "9"
    }
}

/// Writes `n` in decimal, as `usize::to_string` does.
pub fn decimal(n: usize) -> (r: String)
    ensures
        r@ == decimal_text(n as nat),
    decreases n,
{
    if n < 10 {
        String::from_str(digit_text(n))
    } else {
        let mut s = decimal(n / 10);
        s.append(digit_text(n % 10));
        s
    }
}

/// `needle` occurs in `hay` as a contiguous run.
pub open spec fn occurs_in(needle: Seq<u8>, hay: Seq<u8>) -> bool {
    exists|i: int|
        0 <= i && i + needle.len() <= hay.len() && #[trigger] hay.subrange(i, i + needle.len())
            == needle
}

/// Whether the output of `tasklist` names the Grok CLI's process: its UTF-8 text
/// contains `grok.exe` (an ASCII needle, so a byte match is a character match).
pub fn tasklist_lists_grok(output: &str) -> (r: bool)
    ensures
        r == occurs_in(encode_utf8("grok.exe"@), encode_utf8(output@)),
{
    let hay = output.as_bytes();
    let needle = "grok.exe".as_bytes();
    let hay_len: usize = hay.len();
    proof {
        reveal_strlit("grok.exe");
        assert(needle@.len() > 0);
    }
    let mut i: usize = 0;
    while i < hay.len()
        invariant
            hay@ == encode_utf8(output@),
            needle@ == encode_utf8("grok.exe"@),
            needle@.len() > 0,
            hay_len == hay@.len(),
            i <= hay@.len(),
            forall|j: int|
                0 <= j < i && j + needle@.len() <= hay@.len() ==> #[trigger] hay@.subrange(
                    j,
                    j + needle@.len(),
                ) != needle@,
        decreases hay@.len() - i,
    {
        if needle.len() <= hay.len() - i {
            let mut k: usize = 0;
            let mut same = true;
            while k < needle.len()
                invariant
                    hay_len == hay@.len(),
                    i + needle@.len() <= hay@.len(),
                    k <= needle@.len(),
                    same <==> forall|m: int| 0 <= m < k ==> hay@[i + m] == needle@[m],
                decreases needle@.len() - k,
            {
                if hay[i + k] != needle[k] {
                    same = false;
                }
                k = k + 1;
            }
            if same {
                assert(hay@.subrange(i as int, i + needle@.len()) =~= needle@);
                return true;
            }
            proof {
                let w = hay@.subrange(i as int, i + needle@.len());
                let m: int = choose|m: int| 0 <= m < needle@.len() && hay@[i + m] != needle@[m];
                assert(w[m] != needle@[m]);
            }
        }
        i = i + 1;
    }
    false
}

} // verus!
