//! A single weighted coding proposal, its text form and its parser.
use vstd::prelude::*;
use crate::encoding::{encoding_of_token, token_of, Encoding};
use crate::error::{Error, BAD_REQUEST};
use crate::text::{copy_range, trim, trim_chars};

verus! {

/// The largest weight, 1.0, in thousandths.
pub const MAX_WEIGHT: u16 = 1000;

/// A coding proposed by a client, with an optional weight.
///
/// Weights are kept in thousandths, `0..=1000`, which is the precision of a
/// header's `q=` value. A missing weight ranks as the largest one.
#[derive(Clone, Copy, Debug, PartialEq, Eq)]
pub struct EncodingProposal {
    pub encoding: Encoding,
    pub weight: Option<u16>,
}

/// The weight a proposal ranks with: its own, or 1.0 when it has none.
pub open spec fn rank(p: EncodingProposal) -> int {
    match p.weight {
        Some(w) => w as int,
        None => MAX_WEIGHT as int,
    }
}

/// The character of a decimal digit.
pub open spec fn digit_char(d: int) -> char {
    if d == 0 { '0' }
    else if d == 1 { '1' }
    else if d == 2 { '2' }
    else if d == 3 { '3' }
    else if d == 4 { '4' }
    else if d == 5 { '5' }
    else if d == 6 { '6' }
    else if d == 7 { '7' }
    else if d == 8 { '8' }
    else { '9' }
}

pub open spec fn is_digit(c: char) -> bool {
    '0' <= c && c <= '9'
}

/// The value of a decimal digit character.
pub open spec fn digit_value(c: char) -> int {
    c as int - '0' as int
}

/// The text of a weight: one integer digit, a point and three decimals.
pub open spec fn weight_text(w: int) -> Seq<char> {
    seq![digit_char(w / 1000), '.', digit_char((w / 100) % 10), digit_char((w / 10) % 10), digit_char(w % 10)]
}

/// The text of a proposal: its token, then `;q=` and its weight if it has one.
pub open spec fn proposal_text(p: EncodingProposal) -> Seq<char> {
    match p.weight {
        Some(w) => token_of(p.encoding) + seq![';', 'q', '='] + weight_text(w as int),
        None => token_of(p.encoding),
    }
}

/// The decimal at position `i` of a weight's text, or 0 past its end.
pub open spec fn decimal_at(t: Seq<char>, i: int) -> int {
    if i < t.len() { digit_value(t[i]) } else { 0 }
}

/// A weight value `0`, `1`, `0.d`, `0.dd`, `0.ddd` or `1.` followed by up to
/// three digits, in thousandths; `None` when the text is not such a value or
/// the value exceeds 1.
pub open spec fn parse_qvalue(t: Seq<char>) -> Option<u16> {
    if 1 <= t.len() <= 5 && (t[0] == '0' || t[0] == '1') && (t.len() == 1 || t[1] == '.')
        && (forall|i: int| 2 <= i < t.len() ==> is_digit(#[trigger] t[i])) {
        let v = 1000 * digit_value(t[0]) + 100 * decimal_at(t, 2) + 10 * decimal_at(t, 3)
            + decimal_at(t, 4);
        if v <= 1000 { Some(v as u16) } else { None }
    } else {
        None
    }
}

/// A weight parameter `q=<value>`, in thousandths.
pub open spec fn parse_weight(t: Seq<char>) -> Option<u16> {
    if t.len() >= 2 && t[0] == 'q' && t[1] == '=' {
        parse_qvalue(t.skip(2))
    } else {
        None
    }
}

/// How many characters of `s` come before the first `c` (all of them if
/// there is none).
pub open spec fn count_before(s: Seq<char>, c: char) -> nat
    decreases s.len(),
{
    if s.len() == 0 || s[0] == c {
        0
    } else {
        1 + count_before(s.drop_first(), c)
    }
}

/// A directive `<coding>` or `<coding>;q=<value>`, trimmed of whitespace.
/// `Ok(None)` for a coding this library does not know (whatever follows it),
/// `Err` for a known coding with a malformed or out-of-range weight.
pub open spec fn parse_directive(d: Seq<char>) -> Result<Option<EncodingProposal>, ()> {
    let k = count_before(d, ';') as int;
    match encoding_of_token(trim(d.take(k))) {
        None => Ok(None),
        Some(e) => if k == d.len() {
            Ok(Some(EncodingProposal { encoding: e, weight: None }))
        } else {
            match parse_weight(trim(d.skip(k + 1))) {
                Some(w) => Ok(Some(EncodingProposal { encoding: e, weight: Some(w) })),
                None => Err(()),
            }
        },
    }
}

impl EncodingProposal {
    /// A proposal is valid when its weight, if any, is at most 1.0.
    pub open spec fn wf(&self) -> bool {
        match self.weight {
            Some(w) => w <= MAX_WEIGHT,
            None => true,
        }
    }

    /// Creates a proposal; fails when the weight exceeds 1.0 (1000 thousandths).
    pub fn new(encoding: Encoding, weight: Option<u16>) -> (r: Result<EncodingProposal, Error>)
        ensures
            match r {
                Ok(p) => p.encoding == encoding && p.weight == weight && weight_ok(weight),
                Err(e) => !weight_ok(weight) && e.status == BAD_REQUEST,
            },
            r is Ok ==> r->Ok_0.wf(),
    {
        match weight {
            Some(w) => if w > MAX_WEIGHT {
                return Err(Error::new(BAD_REQUEST, "weight must be between 0 and 1"));
            },
            None => {},
        }
        Ok(EncodingProposal { encoding, weight })
    }

    /// The proposed coding.
    pub fn encoding(&self) -> (r: Encoding)
        ensures
            r == self.encoding,
    {
        self.encoding
    }

    /// The weight, in thousandths, if the proposal has one.
    pub fn weight(&self) -> (r: Option<u16>)
        ensures
            r == self.weight,
    {
        self.weight
    }
}

/// Whether an optional weight lies within `0..=1000` thousandths.
pub open spec fn weight_ok(weight: Option<u16>) -> bool {
    match weight {
        Some(w) => w <= MAX_WEIGHT,
        None => true,
    }
}

/// The decimal at position `i` of `t`: `Some(0)` past its end, `None` where
/// the character there is not a digit.
fn decimal_of(t: &Vec<char>, i: usize) -> (r: Option<u16>)
    ensures
        i < t@.len() ==> (r is Some <==> is_digit(t@[i as int])),
        i < t@.len() && r is Some ==> r->Some_0 as int == digit_value(t@[i as int]),
        i >= t@.len() ==> r == Some(0u16),
{
    if i >= t.len() {
        return Some(0);
    }
    let c = t[i];
    if '0' <= c && c <= '9' {
        Some((c as u32 - '0' as u32) as u16)
    } else {
        None
    }
}

/// Reads a weight value, in thousandths.
fn parse_qvalue_chars(t: &Vec<char>) -> (r: Option<u16>)
    ensures
        r == parse_qvalue(t@),
{
    let n = t.len();
    if n < 1 || n > 5 {
        return None;
    }
    let c0 = t[0];
    if c0 != '0' && c0 != '1' {
        return None;
    }
    if n > 1 && t[1] != '.' {
        return None;
    }
    let d2 = decimal_of(t, 2);
    let d3 = decimal_of(t, 3);
    let d4 = decimal_of(t, 4);
    if d2.is_none() || d3.is_none() || d4.is_none() {
        assert(!(forall|i: int| 2 <= i < t@.len() ==> is_digit(#[trigger] t@[i])));
        return None;
    }
    assert(forall|i: int| 2 <= i < t@.len() ==> is_digit(#[trigger] t@[i])) by {
        assert forall|i: int| 2 <= i < t@.len() implies is_digit(#[trigger] t@[i]) by {
            assert(i == 2 || i == 3 || i == 4);
        }
    }
    let whole: u16 = if c0 == '1' { 1000 } else { 0 };
    let v: u16 = whole + 100 * d2.unwrap() + 10 * d3.unwrap() + d4.unwrap();
    if v > MAX_WEIGHT {
        None
    } else {
        Some(v)
    }
}

/// Reads a weight parameter `q=<value>`.
fn parse_weight_chars(t: &Vec<char>) -> (r: Option<u16>)
    ensures
        r == parse_weight(t@),
{
    if t.len() >= 2 && t[0] == 'q' && t[1] == '=' {
        let v = copy_range(t, 2, t.len());
        assert(v@ =~= t@.skip(2));
        parse_qvalue_chars(&v)
    } else {
        None
    }
}

/// The position of the first `c` in `s`, or its length if there is none.
fn find_char(s: &Vec<char>, c: char) -> (k: usize)
    ensures
        k as nat == count_before(s@, c),
        k <= s@.len(),
{
    let n = s.len();
    let mut i: usize = 0;
    assert(s@.subrange(0, n as int) =~= s@);
    while i < n && s[i] != c
        invariant
            n == s@.len(),
            i <= n,
            count_before(s@, c) == i + count_before(s@.subrange(i as int, n as int), c),
        decreases n - i,
    {
        assert(s@.subrange(i as int, n as int).drop_first() =~= s@.subrange(i + 1, n as int));
        i = i + 1;
    }
    i
}

/// Parses one directive, already split from its neighbours.
pub fn parse_directive_chars(d: &Vec<char>) -> (r: Result<Option<EncodingProposal>, Error>)
    ensures
        match r {
            Ok(o) => parse_directive(d@) == Ok::<Option<EncodingProposal>, ()>(o),
            Err(e) => parse_directive(d@) is Err && e.status == BAD_REQUEST,
        },
        r matches Ok(Some(p)) ==> p.wf(),
{
    let n = d.len();
    let k = find_char(d, ';');
    let head = copy_range(d, 0, k);
    assert(head@ =~= d@.take(k as int));
    let coding = trim_chars(&head);
    match Encoding::from_token(&coding) {
        None => Ok(None),
        Some(encoding) => if k == n {
            Ok(Some(EncodingProposal { encoding, weight: None }))
        } else {
            let tail = copy_range(d, k + 1, n);
            assert(tail@ =~= d@.skip(k + 1));
            let rest = trim_chars(&tail);
            match parse_weight_chars(&rest) {
                Some(w) => Ok(Some(EncodingProposal { encoding, weight: Some(w) })),
                None => Err(Error::new(BAD_REQUEST, "invalid weight")),
            }
        },
    }
}

/// The one-character text of a decimal digit.
fn digit_str(d: u16) -> (r: &'static str)
    requires
        d < 10,
    ensures
        r@ == seq![digit_char(d as int)],
{
    proof {
        reveal_strlit("0");
        reveal_strlit("1");
        reveal_strlit("2");
        reveal_strlit("3");
        reveal_strlit("4");
        reveal_strlit("5");
        reveal_strlit("6");
        reveal_strlit("7");
        reveal_strlit("8");
        reveal_strlit("9");
    }
    if d == 0 { "0" }
    else if d == 1 { "1" }
    else if d == 2 { "2" }
    else if d == 3 { "3" }
    else if d == 4 { "4" }
    else if d == 5 { "5" }
    else if d == 6 { "6" }
    else if d == 7 { "7" }
    else if d == 8 { "8" }
    else { "9" }
}

impl EncodingProposal {
    /// Appends the text of this proposal to `out`.
    pub fn write_to(&self, out: &mut String)
        requires
            self.wf(),
        ensures
            final(out)@ == old(out)@ + proposal_text(*self),
    {
        out.append(self.encoding.as_str());
        match self.weight {
            None => {},
            Some(w) => {
                proof { reveal_strlit(";q="); reveal_strlit("."); }
                out.append(";q=");
                out.append(digit_str(w / 1000));
                out.append(".");
                out.append(digit_str((w / 100) % 10));
                out.append(digit_str((w / 10) % 10));
                out.append(digit_str(w % 10));
                assert(final(out)@ =~= old(out)@ + proposal_text(*self));
            },
        }
    }
}

impl From<Encoding> for EncodingProposal {
    fn from(encoding: Encoding) -> (r: EncodingProposal) {
        EncodingProposal { encoding, weight: None }
    }
}

impl vstd::std_specs::convert::FromSpecImpl<Encoding> for EncodingProposal {
    open spec fn obeys_from_spec() -> bool {
        true
    }

    open spec fn from_spec(encoding: Encoding) -> EncodingProposal {
        EncodingProposal { encoding, weight: None }
    }
}

} // verus!
