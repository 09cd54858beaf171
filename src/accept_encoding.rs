//! The `Accept-Encoding` header: a client's weighted codings and wildcard,
//! and the choice of a coding among those a server offers.
use vstd::prelude::*;
use crate::encoding::Encoding;
use crate::error::{Error, BAD_REQUEST, NOT_ACCEPTABLE};
use crate::headers::{values_named, without_name, Headers, ACCEPT_ENCODING};
use crate::proposal::{parse_directive, parse_directive_chars, proposal_text, EncodingProposal};
use crate::sort::{lemma_rank_order, rank_order, sort_by_rank, sort_by_weight};
use crate::text::{chars_of, trim, trim_chars};

verus! {

/// Repeated occurrences of a header, read as one text joined by commas.
pub open spec fn joined(vals: Seq<Seq<char>>) -> Seq<char>
    decreases vals.len(),
{
    if vals.len() == 0 {
        seq![]
    } else if vals.len() == 1 {
        vals[0]
    } else {
        joined(vals.drop_last()) + seq![','] + vals.last()
    }
}

/// The pieces of `s` between commas; always at least one.
pub open spec fn split_commas(s: Seq<char>) -> Seq<Seq<char>>
    decreases s.len(),
{
    if s.len() == 0 {
        seq![seq![]]
    } else {
        let prev = split_commas(s.drop_last());
        if s.last() == ',' {
            prev.push(seq![])
        } else {
            prev.update(prev.len() - 1, prev.last().push(s.last()))
        }
    }
}

/// What one piece between commas adds to the proposals and the wildcard
/// read so far; `None` once a weight was malformed.
pub open spec fn parse_step(st: Option<(Seq<EncodingProposal>, bool)>, part: Seq<char>) -> Option<
    (Seq<EncodingProposal>, bool),
> {
    match st {
        None => None,
        Some((es, w)) => {
            let d = trim(part);
            if d.len() == 0 {
                Some((es, w))
            } else if d == seq!['*'] {
                Some((es, true))
            } else {
                match parse_directive(d) {
                    Err(_) => None,
                    Ok(None) => Some((es, w)),
                    Ok(Some(p)) => Some((es.push(p), w)),
                }
            }
        },
    }
}

/// The proposals and wildcard read from a sequence of pieces.
pub open spec fn parse_parts(ps: Seq<Seq<char>>) -> Option<(Seq<EncodingProposal>, bool)>
    decreases ps.len(),
{
    if ps.len() == 0 {
        Some((seq![], false))
    } else {
        parse_step(parse_parts(ps.drop_last()), ps.last())
    }
}

/// The proposals and wildcard of a header's text; `None` when a known coding
/// carries a malformed or out-of-range weight.
pub open spec fn parse_header(s: Seq<char>) -> Option<(Seq<EncodingProposal>, bool)> {
    parse_parts(split_commas(s))
}

/// The proposals' texts, separated by `", "`.
pub open spec fn entries_text(es: Seq<EncodingProposal>) -> Seq<char>
    decreases es.len(),
{
    if es.len() == 0 {
        seq![]
    } else if es.len() == 1 {
        proposal_text(es[0])
    } else {
        entries_text(es.drop_last()) + seq![',', ' '] + proposal_text(es.last())
    }
}

/// The header text of proposals and a wildcard: the proposals in their
/// order, then `*` if the wildcard is set.
pub open spec fn header_text(es: Seq<EncodingProposal>, wildcard: bool) -> Seq<char> {
    if !wildcard {
        entries_text(es)
    } else if es.len() == 0 {
        seq!['*']
    } else {
        entries_text(es) + seq![',', ' ', '*']
    }
}

/// Every proposal is valid.
pub open spec fn all_wf(es: Seq<EncodingProposal>) -> bool {
    forall|k: int| 0 <= k < es.len() ==> (#[trigger] es[k]).wf()
}

/// The coding of the first proposal in `es` that `avail` offers.
pub open spec fn first_match(es: Seq<EncodingProposal>, avail: Seq<Encoding>) -> Option<Encoding>
    decreases es.len(),
{
    if es.len() == 0 {
        None
    } else if avail.contains(es[0].encoding) {
        Some(es[0].encoding)
    } else {
        first_match(es.drop_first(), avail)
    }
}

/// The coding chosen for proposals `es` and a wildcard flag among the
/// codings `avail` that a server offers: the first offered coding in the
/// client's sorted order; failing that, with a wildcard, the server's first.
pub open spec fn negotiated(es: Seq<EncodingProposal>, wildcard: bool, avail: Seq<Encoding>) -> Option<
    Encoding,
> {
    match first_match(sort_by_rank(es), avail) {
        Some(e) => Some(e),
        None => if wildcard && avail.len() > 0 {
            Some(avail[0])
        } else {
            None
        },
    }
}

/// A client's accepted codings: weighted proposals in declaration order and
/// a wildcard flag.
#[derive(Debug)]
pub struct AcceptEncoding {
    wildcard: bool,
    entries: Vec<EncodingProposal>,
}

impl View for AcceptEncoding {
    type V = (Seq<EncodingProposal>, bool);

    closed spec fn view(&self) -> (Seq<EncodingProposal>, bool) {
        (self.entries@, self.wildcard)
    }
}

/// Applies one piece between commas to the proposals and wildcard read so
/// far; `false` when its weight is malformed.
fn apply_part(es: &mut Vec<EncodingProposal>, wild: &mut bool, part: &Vec<char>) -> (ok: bool)
    requires
        all_wf(old(es)@),
    ensures
        ok == parse_step(Some((old(es)@, *old(wild))), part@) is Some,
        ok ==> parse_step(Some((old(es)@, *old(wild))), part@) == Some((final(es)@, *final(wild))),
        all_wf(final(es)@),
{
    let d = trim_chars(part);
    if d.len() == 0 {
        return true;
    }
    if d.len() == 1 && d[0] == '*' {
        assert(d@ =~= seq!['*']);
        *wild = true;
        return true;
    }
    assert(d@ != seq!['*']) by {
        if d@ == seq!['*'] {
            assert(d@[0] == '*');
        }
    }
    match parse_directive_chars(&d) {
        Err(_) => false,
        Ok(None) => true,
        Ok(Some(p)) => {
            es.push(p);
            true
        },
    }
}

/// Reads the proposals and wildcard of a header's text.
fn parse_chars(s: &Vec<char>) -> (r: Result<AcceptEncoding, Error>)
    ensures
        match parse_header(s@) {
            Some(v) => r is Ok && r->Ok_0@ == v && r->Ok_0.wf(),
            None => r is Err && r->Err_0.status == BAD_REQUEST,
        },
{
    let n = s.len();
    let mut entries: Vec<EncodingProposal> = Vec::new();
    let mut wildcard = false;
    let mut ok = true;
    let mut cur: Vec<char> = Vec::new();
    let mut i: usize = 0;
    assert(s@.take(0) =~= seq![]);
    assert(split_commas(seq![]).drop_last() =~= seq![]);
    while i < n
        invariant
            n == s@.len(),
            i <= n,
            all_wf(entries@),
            split_commas(s@.take(i as int)).len() >= 1,
            cur@ == split_commas(s@.take(i as int)).last(),
            parse_parts(split_commas(s@.take(i as int)).drop_last()) == (if ok {
                Some((entries@, wildcard))
            } else {
                None::<(Seq<EncodingProposal>, bool)>
            }),
        decreases n - i,
    {
        let c = s[i];
        let ghost sp = split_commas(s@.take(i as int));
        assert(s@.take(i + 1).drop_last() =~= s@.take(i as int));
        assert(s@.take(i + 1).last() == c);
        if c == ',' {
            assert(sp.push(seq![]).drop_last() =~= sp);
            assert(sp.drop_last().push(sp.last()) =~= sp);
            if ok {
                ok = apply_part(&mut entries, &mut wildcard, &cur);
            }
            cur = Vec::new();
        } else {
            assert(sp.update(sp.len() - 1, sp.last().push(c)).drop_last() =~= sp.drop_last());
            cur.push(c);
        }
        i = i + 1;
    }
    assert(s@.take(n as int) =~= s@);
    proof {
        let sp = split_commas(s@);
        assert(sp.drop_last().push(sp.last()) =~= sp);
    }
    if ok {
        ok = apply_part(&mut entries, &mut wildcard, &cur);
    }
    if ok {
        Ok(AcceptEncoding { entries, wildcard })
    } else {
        Err(Error::new(BAD_REQUEST, "invalid weight in Accept-Encoding"))
    }
}

impl AcceptEncoding {
    /// Every proposal held is valid.
    pub open spec fn wf(&self) -> bool {
        all_wf(self@.0)
    }

    /// Creates an empty set of proposals without a wildcard.
    pub fn new() -> (r: AcceptEncoding)
        ensures
            r@ == (Seq::<EncodingProposal>::empty(), false),
            r.wf(),
    {
        AcceptEncoding { entries: Vec::new(), wildcard: false }
    }

    /// Reads the `Accept-Encoding` fields of `headers`, all occurrences
    /// together: `Ok(None)` when there is none, an error when a known coding
    /// carries a malformed weight.
    pub fn from_headers(headers: &Headers) -> (r: Result<Option<AcceptEncoding>, Error>)
        ensures
            values_named(headers@, ACCEPT_ENCODING@).len() == 0 ==> r matches Ok(None),
            values_named(headers@, ACCEPT_ENCODING@).len() > 0 ==> match parse_header(
                joined(values_named(headers@, ACCEPT_ENCODING@)),
            ) {
                Some(v) => r matches Ok(Some(a)) && a@ == v && a.wf(),
                None => r matches Err(e) && e.status == BAD_REQUEST,
            },
    {
        let vals = match headers.get(ACCEPT_ENCODING) {
            None => return Ok(None),
            Some(vals) => vals,
        };
        let ghost vs = vals@.map_values(|v: String| v@);
        let mut text: Vec<char> = Vec::new();
        let mut k: usize = 0;
        assert(vs.take(0) =~= seq![]);
        while k < vals.len()
            invariant
                vs == vals@.map_values(|v: String| v@),
                k <= vals@.len(),
                text@ == joined(vs.take(k as int)),
            decreases vals@.len() - k,
        {
            assert(vs.take(k + 1).drop_last() =~= vs.take(k as int));
            if k > 0 {
                text.push(',');
            }
            let part = chars_of(vals[k].as_str());
            let mut j: usize = 0;
            let ghost before = text@;
            while j < part.len()
                invariant
                    j <= part@.len(),
                    text@ == before + part@.take(j as int),
                decreases part@.len() - j,
            {
                text.push(part[j]);
                j = j + 1;
                assert(text@ =~= before + part@.take(j as int));
            }
            assert(part@.take(j as int) =~= part@);
            k = k + 1;
            assert(text@ =~= joined(vs.take(k as int)));
        }
        assert(vs.take(vals@.len() as int) =~= vs);
        match parse_chars(&text) {
            Ok(a) => Ok(Some(a)),
            Err(e) => Err(e),
        }
    }
}

/// Every entry of the sorted sequence is one of the original entries.
proof fn lemma_sorted_entries(es: Seq<EncodingProposal>)
    ensures
        sort_by_rank(es).len() == es.len(),
        forall|k: int| 0 <= k < es.len() ==> exists|i: int| 0 <= i < es.len() && #[trigger] sort_by_rank(es)[k] == es[i],
{
    lemma_rank_order(es);
    let ord = rank_order(es);
    assert forall|k: int| 0 <= k < es.len() implies exists|i: int| 0 <= i < es.len() && #[trigger] sort_by_rank(es)[k] == es[i] by {
        assert(0 <= ord[k] < es.len());
        assert(sort_by_rank(es)[k] == es[ord[k]]);
    }
}

/// Whether `avail` holds `e`.
fn offers(avail: &[Encoding], e: Encoding) -> (r: bool)
    ensures
        r == avail@.contains(e),
{
    let mut i: usize = 0;
    while i < avail.len()
        invariant
            i <= avail@.len(),
            forall|k: int| 0 <= k < i ==> avail@[k] != e,
        decreases avail@.len() - i,
    {
        if avail[i] == e {
            assert(avail@[i as int] == e);
            return true;
        }
        i = i + 1;
    }
    false
}

impl AcceptEncoding {
    /// Adds a proposal after those already held.
    pub fn push(&mut self, prop: EncodingProposal)
        requires
            old(self).wf(),
            prop.wf(),
        ensures
            final(self)@ == (old(self)@.0.push(prop), old(self)@.1),
            final(self).wf(),
    {
        self.entries.push(prop);
    }

    /// Whether the wildcard `*` was given.
    pub fn wildcard(&self) -> (r: bool)
        ensures
            r == self@.1,
    {
        self.wildcard
    }

    /// Sets or clears the wildcard.
    pub fn set_wildcard(&mut self, wildcard: bool)
        ensures
            final(self)@ == (old(self)@.0, wildcard),
            final(self).wf() == old(self).wf(),
    {
        self.wildcard = wildcard;
    }

    /// Orders the proposals by weight, highest first; among equal weights
    /// the one declared later comes first. A proposal without a weight ranks
    /// as weight 1.
    pub fn sort(&mut self)
        requires
            old(self).wf(),
        ensures
            final(self)@ == (sort_by_rank(old(self)@.0), old(self)@.1),
            final(self).wf(),
    {
        let sorted = sort_by_weight(&self.entries);
        proof { lemma_sorted_entries(self.entries@); }
        self.entries = sorted;
    }

    /// Chooses a coding among `available`, the codings a server offers in its
    /// own order of preference. The proposals are sorted first; the first of
    /// them that is offered wins. Failing that, with the wildcard set, the
    /// first offered coding wins. Otherwise the error has status 406.
    pub fn negotiate(&mut self, available: &[Encoding]) -> (r: Result<Encoding, Error>)
        requires
            old(self).wf(),
        ensures
            final(self)@ == (sort_by_rank(old(self)@.0), old(self)@.1),
            final(self).wf(),
            match r {
                Ok(e) => negotiated(old(self)@.0, old(self)@.1, available@) == Some(e),
                Err(err) => negotiated(old(self)@.0, old(self)@.1, available@) is None
                    && err.status == NOT_ACCEPTABLE,
            },
    {
        self.sort();
        let n = self.entries.len();
        let mut i: usize = 0;
        let ghost es = self.entries@;
        assert(es.skip(0) =~= es);
        while i < n
            invariant
                es == self.entries@,
                n == es.len(),
                i <= n,
                first_match(es, available@) == first_match(es.skip(i as int), available@),
                self@ == (sort_by_rank(old(self)@.0), old(self)@.1),
                self.wf(),
            decreases n - i,
        {
            let e = self.entries[i].encoding;
            assert(es.skip(i as int).drop_first() =~= es.skip(i + 1));
            if offers(available, e) {
                return Ok(e);
            }
            i = i + 1;
        }
        if self.wildcard && available.len() > 0 {
            return Ok(available[0]);
        }
        Err(Error::new(NOT_ACCEPTABLE, "no suitable content encoding found"))
    }

    /// Sets the `Accept-Encoding` field of `headers` to this header's text,
    /// replacing any earlier occurrence.
    pub fn apply(&self, headers: &mut Headers)
        requires
            self.wf(),
        ensures
            final(headers)@ == without_name(old(headers)@, ACCEPT_ENCODING@).push(
                (ACCEPT_ENCODING@, header_text(self@.0, self@.1)),
            ),
    {
        let v = self.value();
        headers.insert(ACCEPT_ENCODING, v);
    }

    /// The name of this header.
    pub fn name(&self) -> (r: &'static str)
        ensures
            r@ == ACCEPT_ENCODING@,
    {
        ACCEPT_ENCODING
    }

    /// The text of this header: the proposals in their current order,
    /// separated by `", "`, then `*` if the wildcard is set.
    pub fn value(&self) -> (r: String)
        requires
            self.wf(),
        ensures
            r@ == header_text(self@.0, self@.1),
    {
        let mut out = String::new();
        let n = self.entries.len();
        let mut k: usize = 0;
        let ghost es = self.entries@;
        assert(es.take(0) =~= seq![]);
        proof { reveal_strlit("*"); reveal_strlit(", *"); }
        while k < n
            invariant
                es == self.entries@,
                n == es.len(),
                all_wf(es),
                k <= n,
                out@ == entries_text(es.take(k as int)),
            decreases n - k,
        {
            let ghost before = out@;
            assert(es.take(k + 1).drop_last() =~= es.take(k as int));
            assert(es.take(k + 1).last() == es[k as int]);
            assert(es[k as int].wf());
            if k > 0 {
                proof { reveal_strlit(", "); }
                out.append(", ");
                self.entries[k].write_to(&mut out);
                assert(out@ =~= before + seq![',', ' '] + proposal_text(es[k as int]));
            } else {
                self.entries[k].write_to(&mut out);
                assert(out@ =~= proposal_text(es[k as int]));
                assert(es.take(1)[0] == es[0]);
            }
            k = k + 1;
        }
        assert(es.take(n as int) =~= es);
        if self.wildcard {
            if n == 0 {
                out.append("*");
            } else {
                out.append(", *");
            }
        }
        assert(out@ =~= header_text(self@.0, self@.1));
        out
    }

    /// A cursor over the proposals in their current order.
    pub fn iter(&self) -> (r: Iter<'_>)
        ensures
            r@ == self@.0,
    {
        let r = Iter { entries: &self.entries, pos: 0 };
        assert(r@ =~= self@.0);
        r
    }

    /// The proposals in their current order, by value.
    pub fn into_iter(self) -> (r: IntoIter)
        ensures
            r@ == self@.0,
    {
        let r = IntoIter { entries: self.entries, pos: 0 };
        assert(r@ =~= self@.0);
        r
    }
}

/// A cursor over the proposals of an [`AcceptEncoding`], by reference.
#[derive(Debug)]
pub struct Iter<'a> {
    entries: &'a Vec<EncodingProposal>,
    pos: usize,
}

impl<'a> View for Iter<'a> {
    type V = Seq<EncodingProposal>;

    /// The proposals not visited yet.
    closed spec fn view(&self) -> Seq<EncodingProposal> {
        if self.pos <= self.entries@.len() {
            self.entries@.skip(self.pos as int)
        } else {
            seq![]
        }
    }
}

impl<'a> Iter<'a> {
    /// The next proposal, or `None` once all were visited.
    pub fn next(&mut self) -> (r: Option<&'a EncodingProposal>)
        ensures
            old(self)@.len() == 0 ==> r is None && final(self)@ == old(self)@,
            old(self)@.len() > 0 ==> (r matches Some(p) && *p == old(self)@[0]),
            old(self)@.len() > 0 ==> final(self)@ == old(self)@.drop_first(),
    {
        if self.pos < self.entries.len() {
            let p = &self.entries[self.pos];
            self.pos = self.pos + 1;
            assert(final(self)@ =~= old(self)@.drop_first());
            Some(p)
        } else {
            None
        }
    }

    /// How many proposals are left, as a lower and an upper bound.
    pub fn size_hint(&self) -> (r: (usize, Option<usize>))
        ensures
            r.0 == self@.len() && r.1 == Some(self@.len() as usize),
    {
        let left: usize = if self.pos <= self.entries.len() { self.entries.len() - self.pos } else { 0 };
        (left, Some(left))
    }
}

/// A cursor over the proposals of an [`AcceptEncoding`], by value.
#[derive(Debug)]
pub struct IntoIter {
    entries: Vec<EncodingProposal>,
    pos: usize,
}

impl View for IntoIter {
    type V = Seq<EncodingProposal>;

    /// The proposals not visited yet.
    closed spec fn view(&self) -> Seq<EncodingProposal> {
        if self.pos <= self.entries@.len() {
            self.entries@.skip(self.pos as int)
        } else {
            seq![]
        }
    }
}

impl IntoIter {
    /// The next proposal, or `None` once all were visited.
    pub fn next(&mut self) -> (r: Option<EncodingProposal>)
        ensures
            old(self)@.len() == 0 ==> r is None && final(self)@ == old(self)@,
            old(self)@.len() > 0 ==> r == Some(old(self)@[0]) && final(self)@
                == old(self)@.drop_first(),
    {
        if self.pos < self.entries.len() {
            let p = self.entries[self.pos];
            self.pos = self.pos + 1;
            assert(final(self)@ =~= old(self)@.drop_first());
            Some(p)
        } else {
            None
        }
    }

    /// How many proposals are left, as a lower and an upper bound.
    pub fn size_hint(&self) -> (r: (usize, Option<usize>))
        ensures
            r.0 == self@.len() && r.1 == Some(self@.len() as usize),
    {
        let left: usize = if self.pos <= self.entries.len() { self.entries.len() - self.pos } else { 0 };
        (left, Some(left))
    }
}

/// A cursor over the proposals of an [`AcceptEncoding`] that may change them.
#[derive(Debug)]
pub struct IterMut<'a> {
    /// The proposals traversed.
    pub entries: &'a mut Vec<EncodingProposal>,
    /// How many of them were visited.
    pub pos: usize,
}

impl<'a> IterMut<'a> {
    /// The proposals as they stand now.
    pub open spec fn entries(&self) -> Seq<EncodingProposal> {
        self.entries@
    }

    /// How many proposals were visited.
    pub open spec fn pos(&self) -> int {
        self.pos as int
    }

    /// The next proposal, to read or change, or `None` once all were visited.
    pub fn next(&mut self) -> (r: Option<&mut EncodingProposal>)
        ensures
            old(self).pos() >= old(self).entries().len() ==> r is None && final(self).entries()
                == old(self).entries() && final(self).pos() == old(self).pos(),
            old(self).pos() < old(self).entries().len() ==> (r matches Some(p) && *p
                == old(self).entries()[old(self).pos()] && final(self).entries() == old(
                self,
            ).entries().update(old(self).pos(), *final(p)) && final(self).pos() == old(self).pos() + 1),
            *final(final(self).entries) == *final(old(self).entries),
    {
        if self.pos < self.entries.len() {
            let i = self.pos;
            self.pos = self.pos + 1;
            Some(&mut self.entries[i])
        } else {
            None
        }
    }

    /// How many proposals are left, as a lower and an upper bound.
    pub fn size_hint(&self) -> (r: (usize, Option<usize>))
        ensures
            self.pos() <= self.entries().len() ==> r.0 == self.entries().len() - self.pos(),
            self.pos() > self.entries().len() ==> r.0 == 0,
            r.1 == Some(r.0),
    {
        let left: usize = if self.pos <= self.entries.len() { self.entries.len() - self.pos } else { 0 };
        (left, Some(left))
    }
}


impl AcceptEncoding {
    /// A cursor over the proposals in their current order that may change
    /// them; once it is dropped the proposals are as it left them.
    pub fn iter_mut(&mut self) -> (r: IterMut<'_>)
        ensures
            r.entries() == old(self)@.0,
            r.pos() == 0,
            final(self)@ == ((*final(r.entries))@, old(self)@.1),
    {
        IterMut { entries: &mut self.entries, pos: 0 }
    }
}

} // verus!
