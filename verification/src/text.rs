//! Small text utilities shared by the codec, the command dispatcher and the
//! formatting code: string equality, splitting, decimal rendering and parsing,
//! and the two trusted conversions (UTF-8 decoding, Unicode lowercasing).

use vstd::prelude::*;

verus! {

/// String-slice equality, stated over the views.
pub fn str_eq(a: &str, b: &str) -> (r: bool)
    ensures
        r == (a@ == b@),
{
    let sa: String = a.to_owned();
    let sb: String = b.to_owned();
    sa == sb
}

/// What `String::from_utf8_lossy` returns on a given byte sequence.
pub uninterp spec fn lossy_utf8(bytes: Seq<u8>) -> Seq<char>;

/// Relies on `String::from_utf8_lossy`: valid UTF-8 decodes exactly to the
/// character sequence it encodes; any input yields the same characters on
/// every call, here named `lossy_utf8`.
#[verifier::external_body]
pub(crate) fn bytes_to_text(bytes: &[u8]) -> (r: String)
    ensures
        r@ == lossy_utf8(bytes@),
        vstd::utf8::valid_utf8(bytes@) ==> r@ == vstd::utf8::decode_utf8(bytes@),
{
    String::from_utf8_lossy(bytes).to_string()
}

/// Index of the first occurrence of `sep` in `s`, or `s.len()` if none.
pub open spec fn spec_find(s: Seq<char>, sep: char) -> int
    decreases s.len(),
{
    if s.len() == 0 {
        0
    } else if s[0] == sep {
        0
    } else {
        1 + spec_find(s.drop_first(), sep)
    }
}

/// `spec_find` is a position in `0..=len`, holds `sep` when it is short of
/// the end, and nothing before it does.
pub proof fn lemma_find(s: Seq<char>, sep: char)
    ensures
        0 <= spec_find(s, sep) <= s.len(),
        spec_find(s, sep) < s.len() ==> s[spec_find(s, sep)] == sep,
        forall|k: int| 0 <= k < spec_find(s, sep) ==> s[k] != sep,
    decreases s.len(),
{
    if s.len() > 0 && s[0] != sep {
        lemma_find(s.drop_first(), sep);
        assert(forall|k: int| 1 <= k < spec_find(s, sep) ==> s[k] == s.drop_first()[k - 1]);
    }
}

/// The pieces of `s` between occurrences of `sep`: always one piece more
/// than there are separators, so never empty, and possibly holding empty
/// pieces.
pub open spec fn spec_split(s: Seq<char>, sep: char) -> Seq<Seq<char>>
    decreases s.len(),
    when 0 <= spec_find(s, sep) <= s.len()
{
    let i = spec_find(s, sep);
    if i == s.len() {
        seq![s]
    } else {
        seq![s.take(i)] + spec_split(s.skip(i + 1), sep)
    }
}

/// `spec_find` of a sequence whose first separator stands at `j`.
proof fn lemma_find_at(s: Seq<char>, sep: char, j: int)
    requires
        0 <= j <= s.len(),
        forall|k: int| 0 <= k < j ==> s[k] != sep,
        j < s.len() ==> s[j] == sep,
    ensures
        j < s.len() ==> spec_find(s, sep) == j,
        j == s.len() ==> spec_find(s, sep) == s.len(),
    decreases s.len(),
{
    lemma_find(s, sep);
    if s.len() > 0 && s[0] != sep {
        assert(forall|k: int| 0 <= k < j - 1 ==> s.drop_first()[k] == s[k + 1]);
        assert(j - 1 < s.drop_first().len() ==> s.drop_first()[j - 1] == s[j]);
        lemma_find_at(s.drop_first(), sep, if j == 0 { 0 } else { j - 1 });
    }
}

/// A sequence free of the separator splits into itself alone.
pub proof fn lemma_split_whole(s: Seq<char>, sep: char)
    requires
        forall|k: int| 0 <= k < s.len() ==> s[k] != sep,
    ensures
        spec_split(s, sep) == seq![s],
{
    lemma_find_at(s, sep, s.len() as int);
}

/// Splits a string at every occurrence of a character, keeping empty pieces,
/// as the standard single-character `split` does.
pub fn split_char(s: &str, sep: char) -> (r: Vec<String>)
    ensures
        r@.map_values(|t: String| t@) == spec_split(s@, sep),
        r@.len() >= 1,
{
    let n = s.unicode_len();
    let mut out: Vec<String> = Vec::new();
    let mut start: usize = 0;
    let mut i: usize = 0;
    proof {
        lemma_find(s@, sep);
        assert(s@.skip(0) =~= s@);
        assert(out@.map_values(|t: String| t@) + spec_split(s@, sep) =~= spec_split(s@, sep));
    }
    while i < n
        invariant
            start <= i <= n == s@.len(),
            forall|k: int| start <= k < i ==> s@[k] != sep,
            spec_split(s@, sep) == out@.map_values(|t: String| t@) + spec_split(
                s@.skip(start as int),
                sep,
            ),
        decreases n - i,
    {
        if s.get_char(i) == sep {
            let piece = s.substring_char(start, i).to_owned();
            proof {
                let suf = s@.skip(start as int);
                let done = out@.map_values(|t: String| t@);
                assert(forall|k: int|
                    0 <= k < i - start ==> suf[k] == s@[k + start] && suf[k] != sep);
                assert(suf[i - start] == s@[i as int]);
                lemma_find_at(suf, sep, i - start);
                lemma_find(suf.skip(i - start + 1), sep);
                assert(spec_split(suf, sep) == seq![suf.take(i - start)] + spec_split(
                    suf.skip(i - start + 1),
                    sep,
                ));
                assert(suf.take(i - start) =~= s@.subrange(start as int, i as int));
                assert(piece@ == suf.take(i - start));
                assert(suf.skip(i - start + 1) =~= s@.skip(i + 1));
                assert(done + spec_split(suf, sep) =~= (done + seq![piece@]) + spec_split(
                    s@.skip(i + 1),
                    sep,
                ));
            }
            let ghost done_before = out@.map_values(|t: String| t@);
            out.push(piece);
            proof {
                assert(out@.map_values(|t: String| t@) =~= done_before + seq![piece@]);
            }
            start = i + 1;
        }
        i = i + 1;
    }
    let piece = s.substring_char(start, n).to_owned();
    proof {
        let suf = s@.skip(start as int);
        assert(forall|k: int| 0 <= k < suf.len() ==> suf[k] == s@[k + start] && suf[k] != sep);
        lemma_find_at(suf, sep, suf.len() as int);
        assert(spec_split(suf, sep) == seq![suf]);
        assert(suf =~= s@.subrange(start as int, n as int));
        assert(piece@ == suf);
    }
    let ghost done_before = out@.map_values(|t: String| t@);
    out.push(piece);
    proof {
        assert(out@.map_values(|t: String| t@) =~= done_before + seq![piece@]);
        assert(done_before + seq![piece@] =~= spec_split(s@, sep));
    }
    out
}

/// The character spelling a single decimal digit.
pub open spec fn spec_digit(d: int) -> char {
    if d == 0 {
        '0'
    } else if d == 1 {
        '1'
    } else if d == 2 {
        '2'
    } else if d == 3 {
        '3'
    } else if d == 4 {
        '4'
    } else if d == 5 {
        '5'
    } else if d == 6 {
        '6'
    } else if d == 7 {
        '7'
    } else if d == 8 {
        '8'
    } else {
        '9'
    }
}

/// The decimal spelling of a number, most significant digit first, with no
/// sign and no leading zeros (a lone zero for 0).
pub open spec fn spec_udec(n: int) -> Seq<char>
    decreases n,
{
    if n < 10 {
        seq![spec_digit(n)]
    } else {
        spec_udec(n / 10) + seq![spec_digit(n % 10)]
    }
}

/// The spelling of one digit, as a borrowed string.
fn digit_str(d: u64) -> (r: &'static str)
    requires
        d < 10,
    ensures
        r@ == seq![spec_digit(d as int)],
{
    proof {
        reveal_strlit("0");
        reveal_strlit("1");
        reveal_strlit("2");
        reveal_strlit("3");
        reveal_strlit("4");
        reveal_strlit("5");
        reveal_strlit("6");
        reveal_strlit("7");
        reveal_strlit("8");
        reveal_strlit("9");
    }
    let r: &'static str = match d {
        0 => "0",
        1 => "1",
        2 => "2",
        3 => "3",
        4 => "4",
        5 => "5",
        6 => "6",
        7 => "7",
        8 => "8",
        _ => "9",
    };
    proof {
        assert(r@.len() == 1);
        assert(r@ =~= seq![spec_digit(d as int)]);
    }
    r
}

/// Renders a number in decimal.
pub fn u64_to_dec(n: u64) -> (r: String)
    ensures
        r@ == spec_udec(n as int),
    decreases n,
{
    if n < 10 {
        digit_str(n).to_owned()
    } else {
        let mut s = u64_to_dec(n / 10);
        s.append(digit_str(n % 10));
        proof {
            assert(spec_udec((n / 10) as int) + seq![spec_digit((n % 10) as int)] =~= spec_udec(
                n as int,
            ));
        }
        s
    }
}

/// Whether a character is a decimal digit.
pub open spec fn spec_is_digit(c: char) -> bool {
    48 <= c as u32 <= 57
}

/// The value of a digit string, read left to right.
pub open spec fn spec_dec_val(s: Seq<char>) -> int
    decreases s.len(),
{
    if s.len() == 0 {
        0
    } else {
        spec_dec_val(s.drop_last()) * 10 + (s.last() as u32 - 48)
    }
}

/// Whether every character is a decimal digit.
pub open spec fn all_digits(s: Seq<char>) -> bool {
    forall|k: int| 0 <= k < s.len() ==> spec_is_digit(#[trigger] s[k])
}

/// What `str::parse::<u16>` accepts: an optional plus sign, then at least one
/// digit, spelling a value that fits. `None` exactly on everything else.
pub open spec fn spec_parse_u16(s: Seq<char>) -> Option<u16> {
    let body: Seq<char> = if s.len() > 0 && s[0] == '+' {
        s.skip(1)
    } else {
        s
    };
    if body.len() == 0 || !all_digits(body) {
        None
    } else if spec_dec_val(body) > u16::MAX {
        None
    } else {
        Some(spec_dec_val(body) as u16)
    }
}

/// A digit string's value is never negative.
proof fn lemma_dec_val_nonneg(s: Seq<char>)
    requires
        forall|k: int| 0 <= k < s.len() ==> spec_is_digit(#[trigger] s[k]),
    ensures
        spec_dec_val(s) >= 0,
    decreases s.len(),
{
    if s.len() > 0 {
        assert(forall|k: int|
            0 <= k < s.drop_last().len() ==> spec_is_digit(#[trigger] s.drop_last()[k]));
        lemma_dec_val_nonneg(s.drop_last());
    }
}

/// Parses a 16-bit number the way the standard library does.
#[verifier::loop_isolation(false)]
pub fn parse_u16(s: &str) -> (r: Option<u16>)
    ensures
        r == spec_parse_u16(s@),
{
    let n = s.unicode_len();
    let mut start: usize = 0;
    proof {
        assert(s@.skip(0) =~= s@);
    }
    if n > 0 && s.get_char(0) == '+' {
        start = 1;
    }
    let ghost body: Seq<char> = s@.skip(start as int);
    proof {
        assert(start == 0 ==> body == s@);
    }
    if start == n {
        return None;
    }
    let mut acc: u32 = 0;
    let mut over: bool = false;
    let mut i: usize = start;
    proof {
        assert(body.take(0) =~= Seq::<char>::empty());
    }
    while i < n
        invariant
            start <= i <= n == s@.len(),
            body == s@.skip(start as int),
            forall|k: int| 0 <= k < i - start ==> spec_is_digit(#[trigger] body[k]),
            !over ==> acc == spec_dec_val(body.take(i - start)) && acc <= u16::MAX,
            over ==> spec_dec_val(body.take(i - start)) > u16::MAX,
        decreases n - i,
    {
        let c = s.get_char(i);
        let cv = c as u32;
        proof {
            assert(body[i - start] == s@[i as int]);
        }
        if cv < 48 || cv > 57 {
            proof {
                assert(!spec_is_digit(body[i - start]));
                assert(!all_digits(body));
            }
            return None;
        }
        proof {
            assert(body.take(i - start + 1).drop_last() =~= body.take(i - start));
        }
        if !over {
            acc = acc * 10 + (cv - 48);
            if acc > u16::MAX as u32 {
                over = true;
            }
        } else {
            proof {
                assert(forall|k: int|
                    0 <= k < body.take(i - start).len() ==> spec_is_digit(
                        #[trigger] body.take(i - start)[k],
                    ));
                lemma_dec_val_nonneg(body.take(i - start));
            }
        }
        i = i + 1;
    }
    proof {
        assert(body.take(n - start) =~= body);
        assert(all_digits(body));
    }
    if over {
        None
    } else {
        Some(acc as u16)
    }
}

/// What `str::to_lowercase` returns on a given character sequence.
pub uninterp spec fn lower_of(s: Seq<char>) -> Seq<char>;

/// Relies on `str::to_lowercase`: the result depends on the characters alone,
/// here named `lower_of`.
#[verifier::external_body]
pub(crate) fn lowercase(s: &str) -> (r: String)
    ensures
        r@ == lower_of(s@),
{
    s.to_lowercase()
}

} // verus!
