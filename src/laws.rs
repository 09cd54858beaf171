//! Properties that relate parsing, writing, sorting and negotiation.
use vstd::prelude::*;
use crate::accept_encoding::{
    all_wf, entries_text, first_match, header_text, negotiated, parse_header, parse_parts,
    parse_step, split_commas,
};
use crate::encoding::{lemma_token_round_trip, token_of, Encoding};
use crate::proposal::{
    count_before, digit_char, digit_value, parse_directive, parse_qvalue, parse_weight,
    proposal_text, rank, weight_text, EncodingProposal,
};
use crate::sort::{lemma_rank_order, lists, outranks, rank_order, sort_by_rank};
use crate::text::{is_space, trim, trim_end, trim_start};

verus! {

/// With no proposals and no wildcard, nothing is acceptable.
pub proof fn lemma_nothing_proposed(avail: Seq<Encoding>)
    ensures
        negotiated(seq![], false, avail) is None,
{
    assert(sort_by_rank(seq![]) =~= seq![]);
}

/// A proposal of the server's first coding that outweighs every other
/// proposal is chosen.
pub proof fn lemma_heaviest_first_offer_wins(
    es: Seq<EncodingProposal>,
    wildcard: bool,
    avail: Seq<Encoding>,
    i: int,
)
    requires
        0 <= i < es.len(),
        avail.len() > 0,
        es[i].encoding == avail[0],
        forall|j: int| 0 <= j < es.len() && j != i ==> rank(#[trigger] es[j]) < rank(es[i]),
    ensures
        negotiated(es, wildcard, avail) == Some(es[i].encoding),
{
    lemma_rank_order(es);
    let ord = rank_order(es);
    assert(lists(ord, i));
    let k = choose|k: int| 0 <= k < ord.len() && ord[k] == i;
    if k > 0 {
        assert(outranks(es, ord[0], ord[k]));
        assert(0 <= ord[0] < es.len());
    }
    assert(sort_by_rank(es)[0] == es[i]);
    assert(avail.contains(avail[0]));
}

/// Sorting puts a proposal declared later before an earlier one of the same
/// weight.
pub proof fn lemma_sort_later_first_on_ties(es: Seq<EncodingProposal>, a: int, b: int)
    requires
        0 <= a < b < es.len(),
        es[a].weight == es[b].weight,
    ensures
        exists|ka: int, kb: int|
            0 <= kb < ka < es.len() && rank_order(es)[kb] == b && rank_order(es)[ka] == a
                && #[trigger] sort_by_rank(es)[kb] == es[b] && #[trigger] sort_by_rank(es)[ka] == es[a],
{
    lemma_rank_order(es);
    let ord = rank_order(es);
    assert(lists(ord, a));
    assert(lists(ord, b));
    let ka = choose|k: int| 0 <= k < ord.len() && ord[k] == a;
    let kb = choose|k: int| 0 <= k < ord.len() && ord[k] == b;
    if ka < kb {
        assert(outranks(es, ord[ka], ord[kb]));
    }
    assert(sort_by_rank(es)[kb] == es[b] && sort_by_rank(es)[ka] == es[a]);
}

proof fn lemma_first_match_none(s: Seq<EncodingProposal>, avail: Seq<Encoding>)
    requires
        forall|k: int| 0 <= k < s.len() ==> !avail.contains(#[trigger] s[k].encoding),
    ensures
        first_match(s, avail) is None,
    decreases s.len(),
{
    if s.len() > 0 {
        assert(!avail.contains(s[0].encoding));
        lemma_first_match_none(s.drop_first(), avail);
    }
}

/// With the wildcard set and no proposal offered, the server's first
/// coding is chosen.
pub proof fn lemma_wildcard_takes_first_offer(es: Seq<EncodingProposal>, avail: Seq<Encoding>)
    requires
        avail.len() > 0,
        forall|k: int| 0 <= k < es.len() ==> !avail.contains(#[trigger] es[k].encoding),
    ensures
        negotiated(es, true, avail) == Some(avail[0]),
{
    lemma_rank_order(es);
    let ord = rank_order(es);
    let s = sort_by_rank(es);
    assert forall|k: int| 0 <= k < s.len() implies !avail.contains(#[trigger] s[k].encoding) by {
        assert(0 <= ord[k] < es.len());
        assert(s[k] == es[ord[k]]);
    }
    lemma_first_match_none(s, avail);
}

/// No character of `s` is a comma.
pub open spec fn no_comma(s: Seq<char>) -> bool {
    forall|i: int| 0 <= i < s.len() ==> s[i] != ','
}

proof fn lemma_split_extend(a: Seq<char>, b: Seq<char>)
    requires
        no_comma(b),
    ensures
        split_commas(a + b) == split_commas(a).update(
            split_commas(a).len() - 1,
            split_commas(a).last() + b,
        ),
    decreases b.len(),
{
    lemma_split_nonempty(a);
    if b.len() == 0 {
        assert(a + b =~= a);
        assert(split_commas(a).last() + b =~= split_commas(a).last());
        assert(split_commas(a).update(split_commas(a).len() - 1, split_commas(a).last())
            =~= split_commas(a));
    } else {
        let b0 = b.drop_last();
        assert(no_comma(b0));
        lemma_split_extend(a, b0);
        assert((a + b).drop_last() =~= a + b0);
        assert((a + b).last() == b.last());
        let sp = split_commas(a);
        let q = sp.update(sp.len() - 1, sp.last() + b0);
        assert(q.last() == sp.last() + b0);
        assert(b.last() != ',');
        assert((sp.last() + b0).push(b.last()) =~= sp.last() + b);
        assert(q.update(q.len() - 1, q.last().push(b.last())) =~= sp.update(
            sp.len() - 1,
            sp.last() + b,
        ));
    }
}

proof fn lemma_split_nonempty(s: Seq<char>)
    ensures
        split_commas(s).len() >= 1,
    decreases s.len(),
{
    if s.len() > 0 {
        lemma_split_nonempty(s.drop_last());
    }
}

proof fn lemma_split_after_comma(a: Seq<char>, b: Seq<char>)
    requires
        no_comma(b),
    ensures
        split_commas(a + seq![','] + b) == split_commas(a).push(b),
{
    let ac = a + seq![','];
    assert(ac.drop_last() =~= a);
    assert(split_commas(ac) == split_commas(a).push(seq![]));
    lemma_split_extend(ac, b);
    assert(Seq::<char>::empty() + b =~= b);
    assert(split_commas(ac).update(split_commas(ac).len() - 1, split_commas(ac).last() + b)
        =~= split_commas(a).push(b));
}

proof fn lemma_split_single(b: Seq<char>)
    requires
        no_comma(b),
    ensures
        split_commas(b) == seq![b],
{
    lemma_split_extend(seq![], b);
    assert(Seq::<char>::empty() + b =~= b);
    assert(seq![Seq::<char>::empty()].update(0, Seq::<char>::empty() + b) =~= seq![b]);
}

proof fn lemma_count_before_at(s: Seq<char>, c: char, m: int)
    requires
        0 <= m <= s.len(),
        forall|j: int| 0 <= j < m ==> s[j] != c,
        m < s.len() ==> s[m] == c,
    ensures
        count_before(s, c) == m,
    decreases m,
{
    if m > 0 {
        lemma_count_before_at(s.drop_first(), c, m - 1);
    }
}

proof fn lemma_trim_plain(s: Seq<char>)
    requires
        s.len() > 0,
        !is_space(s[0]),
        !is_space(s.last()),
    ensures
        trim(s) == s,
{
}

proof fn lemma_trim_space_plain(s: Seq<char>)
    requires
        s.len() > 0,
        !is_space(s[0]),
        !is_space(s.last()),
    ensures
        trim(seq![' '] + s) == s,
{
    let t = seq![' '] + s;
    assert(t.drop_first() =~= s);
    assert(is_space(t[0]));
    assert(trim_start(t) == trim_start(s));
    assert(trim_start(s) == s);
    assert(trim_end(s) == s);
}

proof fn lemma_digit(d: int)
    requires
        0 <= d < 10,
    ensures
        digit_value(digit_char(d)) == d,
        '0' <= digit_char(d) <= '9',
{
}

proof fn lemma_weight_text(w: int)
    requires
        0 <= w <= 1000,
    ensures
        parse_qvalue(weight_text(w)) == Some(w as u16),
        no_comma(weight_text(w)),
        !is_space(weight_text(w).last()),
{
    let t = weight_text(w);
    lemma_digit(w / 1000);
    lemma_digit((w / 100) % 10);
    lemma_digit((w / 10) % 10);
    lemma_digit(w % 10);
    assert(w / 1000 == 0 || w / 1000 == 1);
    assert(1000 * (w / 1000) + 100 * ((w / 100) % 10) + 10 * ((w / 10) % 10) + w % 10 == w);
    assert(t[2] == digit_char((w / 100) % 10));
    assert(forall|i: int| 2 <= i < t.len() ==> crate::proposal::is_digit(#[trigger] t[i]));
}

proof fn lemma_token_plain(e: Encoding)
    ensures
        token_of(e).len() > 0,
        no_comma(token_of(e)),
        forall|i: int| 0 <= i < token_of(e).len() ==> token_of(e)[i] != ';',
        !is_space(token_of(e)[0]),
        !is_space(token_of(e).last()),
        token_of(e) != seq!['*'],
{
    let t = token_of(e);
    assert(t[0] != '*');
}

/// A proposal's text reads back as the same proposal.
proof fn lemma_proposal_round_trip(p: EncodingProposal)
    requires
        p.wf(),
    ensures
        parse_directive(proposal_text(p)) == Ok::<Option<EncodingProposal>, ()>(Some(p)),
        no_comma(proposal_text(p)),
        proposal_text(p).len() > 0,
        !is_space(proposal_text(p)[0]),
        !is_space(proposal_text(p).last()),
        proposal_text(p) != seq!['*'],
{
    let tok = token_of(p.encoding);
    lemma_token_plain(p.encoding);
    lemma_token_round_trip(p.encoding);
    let d = proposal_text(p);
    match p.weight {
        None => {
            lemma_count_before_at(d, ';', d.len() as int);
            assert(d.take(d.len() as int) =~= d);
            lemma_trim_plain(d);
        },
        Some(w) => {
            let wt = weight_text(w as int);
            lemma_weight_text(w as int);
            let m = tok.len() as int;
            assert(d[m] == ';');
            assert forall|j: int| 0 <= j < m implies d[j] != ';' by {
                assert(d[j] == tok[j]);
            }
            lemma_count_before_at(d, ';', m);
            assert(d.take(m) =~= tok);
            lemma_trim_plain(tok);
            let rest = d.skip(m + 1);
            assert(rest =~= seq!['q', '='] + wt);
            assert(rest.last() == wt.last());
            lemma_trim_plain(rest);
            assert(rest.skip(2) =~= wt);
            assert(parse_weight(rest) == Some(w));
            assert forall|i: int| 0 <= i < d.len() implies d[i] != ',' by {
                if i < m {
                    assert(d[i] == tok[i]);
                } else if i >= m + 3 {
                    assert(d[i] == wt[i - m - 3]);
                }
            }
            assert(d.last() == wt.last());
            assert(d[0] == tok[0]);
            assert(d.len() > 1);
        },
    }
}

proof fn lemma_entries_round_trip(es: Seq<EncodingProposal>)
    requires
        all_wf(es),
    ensures
        parse_parts(split_commas(entries_text(es))) == Some((es, false)),
        es.len() > 0 ==> no_comma(proposal_text(es.last())),
    decreases es.len(),
{
    if es.len() == 0 {
        assert(es =~= Seq::<EncodingProposal>::empty());
        assert(split_commas(seq![]) == seq![Seq::<char>::empty()]);
        assert(seq![Seq::<char>::empty()].drop_last() =~= Seq::<Seq<char>>::empty());
        assert(trim(Seq::<char>::empty()) =~= Seq::<char>::empty());
        assert(parse_parts(Seq::<Seq<char>>::empty()) == Some((Seq::<EncodingProposal>::empty(), false)));
        assert(parse_step(Some((Seq::<EncodingProposal>::empty(), false)), Seq::<char>::empty())
            == Some((Seq::<EncodingProposal>::empty(), false)));
    } else {
        let p = es.last();
        let pre = es.drop_last();
        assert(p.wf());
        lemma_proposal_round_trip(p);
        let t = proposal_text(p);
        if es.len() == 1 {
            lemma_split_single(t);
            assert(seq![t].drop_last() =~= Seq::<Seq<char>>::empty());
            lemma_trim_plain(t);
            assert(entries_text(es) == t);
            assert(parse_parts(Seq::<Seq<char>>::empty()) == Some((Seq::<EncodingProposal>::empty(), false)));
            assert(parse_step(Some((Seq::<EncodingProposal>::empty(), false)), t)
                == Some((Seq::<EncodingProposal>::empty().push(p), false)));
            assert(Seq::<EncodingProposal>::empty().push(p) =~= es);
        } else {
            assert(all_wf(pre));
            lemma_entries_round_trip(pre);
            let st = seq![' '] + t;
            assert forall|i: int| 0 <= i < st.len() implies st[i] != ',' by {
                if i > 0 {
                    assert(st[i] == t[i - 1]);
                }
            }
            assert(entries_text(pre) + seq![',', ' '] + t =~= entries_text(pre) + seq![','] + st);
            lemma_split_after_comma(entries_text(pre), st);
            assert(split_commas(entries_text(pre)).push(st).drop_last() =~= split_commas(entries_text(pre)));
            lemma_trim_space_plain(t);
            assert(entries_text(es) == entries_text(pre) + seq![',', ' '] + t);
            assert(parse_step(Some((pre, false)), st) == Some((pre.push(p), false)));
            assert(pre.push(p) =~= es);
        }
    }
}

/// Reading back the text written for valid proposals and a wildcard gives
/// the same proposals, in the same order, and the same wildcard.
pub proof fn lemma_header_round_trip(es: Seq<EncodingProposal>, wildcard: bool)
    requires
        all_wf(es),
    ensures
        parse_header(header_text(es, wildcard)) == Some((es, wildcard)),
{
    lemma_entries_round_trip(es);
    if wildcard {
        if es.len() == 0 {
            let star = seq!['*'];
            assert(no_comma(star));
            lemma_split_single(star);
            assert(seq![star].drop_last() =~= Seq::<Seq<char>>::empty());
            lemma_trim_plain(star);
            assert(es =~= Seq::<EncodingProposal>::empty());
            assert(header_text(es, wildcard) == star);
            assert(parse_parts(Seq::<Seq<char>>::empty()) == Some((Seq::<EncodingProposal>::empty(), false)));
            assert(parse_step(Some((Seq::<EncodingProposal>::empty(), false)), star)
                == Some((Seq::<EncodingProposal>::empty(), true)));
        } else {
            let et = entries_text(es);
            let st = seq![' ', '*'];
            assert(no_comma(st));
            assert(et + seq![',', ' ', '*'] =~= et + seq![','] + st);
            lemma_split_after_comma(et, st);
            assert(split_commas(et).push(st).drop_last() =~= split_commas(et));
            assert(st =~= seq![' '] + seq!['*']);
            lemma_trim_space_plain(seq!['*']);
            assert(header_text(es, wildcard) == et + seq![',', ' ', '*']);
            assert(parse_step(Some((es, false)), st) == Some((es, true)));
        }
    }
}

} // verus!
