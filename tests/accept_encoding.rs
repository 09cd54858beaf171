use accept_encoding::{AcceptEncoding, Encoding, EncodingProposal, Headers, ACCEPT_ENCODING};

fn proposal(encoding: Encoding, weight: Option<u16>) -> EncodingProposal {
    EncodingProposal::new(encoding, weight).unwrap()
}

fn round_trip(accept: &AcceptEncoding) -> AcceptEncoding {
    let mut headers = Headers::new();
    accept.apply(&mut headers);
    AcceptEncoding::from_headers(&headers).unwrap().unwrap()
}

fn parse(text: &str) -> Result<Option<AcceptEncoding>, accept_encoding::Error> {
    let mut headers = Headers::new();
    headers.insert(ACCEPT_ENCODING, text.to_string());
    AcceptEncoding::from_headers(&headers)
}

fn encodings(accept: &AcceptEncoding) -> Vec<Encoding> {
    let mut out = Vec::new();
    let mut it = accept.iter();
    while let Some(p) = it.next() {
        out.push(p.encoding());
    }
    out
}

#[test]
fn smoke() {
    let mut accept = AcceptEncoding::new();
    accept.push(EncodingProposal::from(Encoding::Gzip));

    let accept = round_trip(&accept);
    assert_eq!(accept.iter().next().unwrap().encoding(), Encoding::Gzip);
}

#[test]
fn wildcard() {
    let mut accept = AcceptEncoding::new();
    accept.set_wildcard(true);

    let accept = round_trip(&accept);
    assert!(accept.wildcard());
}

#[test]
fn wildcard_and_header() {
    let mut accept = AcceptEncoding::new();
    accept.push(EncodingProposal::from(Encoding::Gzip));
    accept.set_wildcard(true);

    let accept = round_trip(&accept);
    assert!(accept.wildcard());
    assert_eq!(accept.iter().next().unwrap().encoding(), Encoding::Gzip);
}

#[test]
fn iter() {
    let mut accept = AcceptEncoding::new();
    accept.push(EncodingProposal::from(Encoding::Gzip));
    accept.push(EncodingProposal::from(Encoding::Brotli));

    let accept = round_trip(&accept);
    let mut accept = accept.iter();
    assert_eq!(accept.next().unwrap().encoding(), Encoding::Gzip);
    assert_eq!(accept.next().unwrap().encoding(), Encoding::Brotli);
}

// A proposal without a weight ranks as weight 1.
#[test]
fn reorder_based_on_weight() {
    let mut accept = AcceptEncoding::new();
    accept.push(proposal(Encoding::Gzip, Some(400)));
    accept.push(proposal(Encoding::Identity, None));
    accept.push(proposal(Encoding::Brotli, Some(800)));

    let mut accept = round_trip(&accept);
    accept.sort();
    let mut accept = accept.iter();
    assert_eq!(accept.next().unwrap().encoding(), Encoding::Identity);
    assert_eq!(accept.next().unwrap().encoding(), Encoding::Brotli);
    assert_eq!(accept.next().unwrap().encoding(), Encoding::Gzip);
}

// Among proposals without a weight, the later one comes first.
#[test]
fn reorder_based_on_weight_and_location() {
    let mut accept = AcceptEncoding::new();
    accept.push(proposal(Encoding::Identity, None));
    accept.push(proposal(Encoding::Gzip, None));
    accept.push(proposal(Encoding::Brotli, Some(800)));

    let mut accept = round_trip(&accept);
    accept.sort();
    let mut accept = accept.iter();
    assert_eq!(accept.next().unwrap().encoding(), Encoding::Gzip);
    assert_eq!(accept.next().unwrap().encoding(), Encoding::Identity);
    assert_eq!(accept.next().unwrap().encoding(), Encoding::Brotli);
}

#[test]
fn negotiate() {
    let mut accept = AcceptEncoding::new();
    accept.push(proposal(Encoding::Brotli, Some(800)));
    accept.push(proposal(Encoding::Gzip, Some(400)));
    accept.push(proposal(Encoding::Identity, None));

    assert_eq!(
        accept.negotiate(&[Encoding::Brotli, Encoding::Gzip]).unwrap(),
        Encoding::Brotli,
    );
}

#[test]
fn negotiate_not_acceptable() {
    let mut accept = AcceptEncoding::new();
    let err = accept.negotiate(&[Encoding::Gzip]).unwrap_err();
    assert_eq!(err.status(), 406);

    let mut accept = AcceptEncoding::new();
    accept.push(proposal(Encoding::Brotli, Some(800)));
    let err = accept.negotiate(&[Encoding::Gzip]).unwrap_err();
    assert_eq!(err.status(), 406);
}

#[test]
fn negotiate_wildcard() {
    let mut accept = AcceptEncoding::new();
    accept.push(proposal(Encoding::Brotli, Some(800)));
    accept.set_wildcard(true);

    assert_eq!(accept.negotiate(&[Encoding::Gzip]).unwrap(), Encoding::Gzip);
}

#[test]
fn nothing_proposed_is_not_acceptable() {
    let mut accept = AcceptEncoding::new();
    let err = accept.negotiate(&[Encoding::Gzip, Encoding::Brotli]).unwrap_err();
    assert_eq!(err.status(), 406);
}

#[test]
fn heaviest_proposal_of_first_offer_wins() {
    let mut accept = AcceptEncoding::new();
    accept.push(proposal(Encoding::Deflate, Some(300)));
    accept.push(proposal(Encoding::Zstd, Some(900)));
    accept.push(proposal(Encoding::Gzip, Some(500)));
    assert_eq!(
        accept.negotiate(&[Encoding::Zstd, Encoding::Gzip, Encoding::Deflate]).unwrap(),
        Encoding::Zstd,
    );
}

#[test]
fn equal_weights_later_first() {
    let mut accept = AcceptEncoding::new();
    accept.push(proposal(Encoding::Gzip, Some(500)));
    accept.push(proposal(Encoding::Brotli, Some(500)));
    accept.sort();
    assert_eq!(encodings(&accept), vec![Encoding::Brotli, Encoding::Gzip]);
}

#[test]
fn wildcard_falls_back_to_first_offer() {
    let mut accept = AcceptEncoding::new();
    accept.push(proposal(Encoding::Brotli, Some(800)));
    accept.push(proposal(Encoding::Zstd, None));
    accept.set_wildcard(true);
    assert_eq!(
        accept.negotiate(&[Encoding::Deflate, Encoding::Gzip]).unwrap(),
        Encoding::Deflate,
    );
}

#[test]
fn wildcard_with_nothing_offered_fails() {
    let mut accept = AcceptEncoding::new();
    accept.set_wildcard(true);
    assert_eq!(accept.negotiate(&[]).unwrap_err().status(), 406);
}

#[test]
fn round_trip_keeps_entries_and_wildcard() {
    let mut accept = AcceptEncoding::new();
    accept.push(proposal(Encoding::Gzip, Some(400)));
    accept.push(proposal(Encoding::Identity, None));
    accept.push(proposal(Encoding::Brotli, Some(1000)));
    accept.push(proposal(Encoding::Zstd, Some(0)));
    accept.set_wildcard(true);
    let again = round_trip(&accept);
    assert!(again.wildcard());
    let mut a = accept.iter();
    let mut b = again.iter();
    for _ in 0..4 {
        assert_eq!(a.next().unwrap(), b.next().unwrap());
    }
    assert!(b.next().is_none());
}

#[test]
fn client_order_beats_server_order() {
    let mut accept = parse("gzip;q=0.4, identity, br;q=0.8").unwrap().unwrap();
    assert_eq!(
        accept.negotiate(&[Encoding::Brotli, Encoding::Gzip]).unwrap(),
        Encoding::Brotli,
    );
}

#[test]
fn unoffered_proposal_not_acceptable() {
    let mut accept = parse("br;q=0.8").unwrap().unwrap();
    assert_eq!(accept.negotiate(&[Encoding::Gzip]).unwrap_err().status(), 406);
}

#[test]
fn unoffered_proposal_with_wildcard() {
    let mut accept = parse("br;q=0.8, *").unwrap().unwrap();
    assert!(accept.wildcard());
    assert_eq!(accept.negotiate(&[Encoding::Gzip]).unwrap(), Encoding::Gzip);
}

#[test]
fn absent_header_is_none() {
    let headers = Headers::new();
    assert!(AcceptEncoding::from_headers(&headers).unwrap().is_none());
    let empty = parse("").unwrap().unwrap();
    assert!(!empty.wildcard());
    assert!(empty.iter().next().is_none());
}

#[test]
fn value_text() {
    let mut accept = AcceptEncoding::new();
    accept.push(proposal(Encoding::Gzip, Some(400)));
    accept.push(proposal(Encoding::Brotli, None));
    accept.push(proposal(Encoding::Deflate, Some(1000)));
    assert_eq!(accept.value(), "gzip;q=0.400, br, deflate;q=1.000");
    accept.set_wildcard(true);
    assert_eq!(accept.value(), "gzip;q=0.400, br, deflate;q=1.000, *");
    let mut star = AcceptEncoding::new();
    star.set_wildcard(true);
    assert_eq!(star.value(), "*");
    assert_eq!(AcceptEncoding::new().value(), "");
    assert_eq!(accept.name(), "accept-encoding");
}

#[test]
fn parse_skips_unknown_and_empty() {
    let accept = parse(" gzip , ,compress;q=7, x-unknown, zstd ;q=0.25 ").unwrap().unwrap();
    assert_eq!(encodings(&accept), vec![Encoding::Gzip, Encoding::Zstd]);
    let mut it = accept.iter();
    assert_eq!(it.next().unwrap().weight(), None);
    assert_eq!(it.next().unwrap().weight(), Some(250));
    assert!(it.next().is_none());
}

#[test]
fn parse_weights() {
    let accept = parse("gzip;q=1, br;q=0, deflate;q=0., zstd;q=1.000, identity;q=0.5").unwrap().unwrap();
    let mut it = accept.iter();
    assert_eq!(it.next().unwrap().weight(), Some(1000));
    assert_eq!(it.next().unwrap().weight(), Some(0));
    assert_eq!(it.next().unwrap().weight(), Some(0));
    assert_eq!(it.next().unwrap().weight(), Some(1000));
    assert_eq!(it.next().unwrap().weight(), Some(500));
}

#[test]
fn malformed_weight_is_an_error() {
    assert_eq!(parse("gzip;q=abc").err().unwrap().status(), 400);
    assert_eq!(parse("br, gzip;q=1.5").err().unwrap().status(), 400);
    assert_eq!(parse("gzip;w=0.5").err().unwrap().status(), 400);
    assert_eq!(parse("gzip;q=0.1234").err().unwrap().status(), 400);
}

#[test]
fn repeated_wildcards_collapse() {
    let accept = parse("*, gzip, *").unwrap().unwrap();
    assert!(accept.wildcard());
    assert_eq!(encodings(&accept), vec![Encoding::Gzip]);
    assert_eq!(accept.value(), "gzip, *");
}

#[test]
fn repeated_occurrences_are_joined() {
    let mut headers = Headers::new();
    headers.append("Accept-Encoding", "gzip;q=0.2".to_string());
    headers.append("content-type", "text/plain".to_string());
    headers.append("ACCEPT-ENCODING", "br".to_string());
    let accept = AcceptEncoding::from_headers(&headers).unwrap().unwrap();
    assert_eq!(encodings(&accept), vec![Encoding::Gzip, Encoding::Brotli]);
}

#[test]
fn apply_replaces_earlier_field() {
    let mut headers = Headers::new();
    headers.append("accept-encoding", "deflate".to_string());
    headers.append("Accept-Encoding", "zstd".to_string());
    let mut accept = AcceptEncoding::new();
    accept.push(proposal(Encoding::Gzip, Some(700)));
    accept.apply(&mut headers);
    let values = headers.get("accept-encoding").unwrap();
    assert_eq!(values, vec!["gzip;q=0.700".to_string()]);
}

#[test]
fn proposal_weight_out_of_range() {
    let err = EncodingProposal::new(Encoding::Gzip, Some(1001)).unwrap_err();
    assert_eq!(err.status(), 400);
    let ok = EncodingProposal::new(Encoding::Gzip, Some(1000)).unwrap();
    assert_eq!(ok.weight(), Some(1000));
}

#[test]
fn into_iter_and_size_hint() {
    let mut accept = AcceptEncoding::new();
    accept.push(proposal(Encoding::Gzip, None));
    accept.push(proposal(Encoding::Brotli, Some(100)));
    let it = accept.iter();
    assert_eq!(it.size_hint(), (2, Some(2)));
    let mut owned = accept.into_iter();
    assert_eq!(owned.size_hint(), (2, Some(2)));
    assert_eq!(owned.next().unwrap().encoding(), Encoding::Gzip);
    assert_eq!(owned.next().unwrap().weight(), Some(100));
    assert!(owned.next().is_none());
    assert_eq!(owned.size_hint(), (0, Some(0)));
}

#[test]
fn encoding_tokens() {
    assert_eq!(Encoding::Brotli.as_str(), "br");
    assert_eq!(Encoding::from_token(&"zstd".chars().collect()), Some(Encoding::Zstd));
    assert_eq!(Encoding::from_token(&"Gzip".chars().collect()), None);
}

#[test]
fn iter_mut_changes_entries() {
    let mut accept = AcceptEncoding::new();
    accept.push(proposal(Encoding::Gzip, None));
    accept.push(proposal(Encoding::Brotli, Some(100)));
    {
        let mut it = accept.iter_mut();
        assert_eq!(it.size_hint(), (2, Some(2)));
        let first = it.next().unwrap();
        first.weight = Some(50);
        let second = it.next().unwrap();
        second.encoding = Encoding::Zstd;
        assert!(it.next().is_none());
    }
    assert_eq!(accept.value(), "gzip;q=0.050, zstd;q=0.100");
    accept.sort();
    assert_eq!(encodings(&accept), vec![Encoding::Zstd, Encoding::Gzip]);
}
