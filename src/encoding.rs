//! The content codings this library knows by name.
use vstd::prelude::*;

verus! {

/// A content coding that a client may accept and a server may apply.
#[derive(Clone, Copy, Debug, PartialEq, Eq, Structural)]
pub enum Encoding {
    /// The `gzip` coding.
    Gzip,
    /// The `deflate` coding.
    Deflate,
    /// The `br` (Brotli) coding.
    Brotli,
    /// The `zstd` coding.
    Zstd,
    /// The `identity` coding: no transformation.
    Identity,
}

/// The token by which a coding is written in a header.
pub open spec fn token_of(e: Encoding) -> Seq<char> {
    match e {
        Encoding::Gzip => seq!['g', 'z', 'i', 'p'],
        Encoding::Deflate => seq!['d', 'e', 'f', 'l', 'a', 't', 'e'],
        Encoding::Brotli => seq!['b', 'r'],
        Encoding::Zstd => seq!['z', 's', 't', 'd'],
        Encoding::Identity => seq!['i', 'd', 'e', 'n', 't', 'i', 't', 'y'],
    }
}

/// The coding that a token names, if it names one of the known codings.
pub open spec fn encoding_of_token(t: Seq<char>) -> Option<Encoding> {
    if t == token_of(Encoding::Gzip) {
        Some(Encoding::Gzip)
    } else if t == token_of(Encoding::Deflate) {
        Some(Encoding::Deflate)
    } else if t == token_of(Encoding::Brotli) {
        Some(Encoding::Brotli)
    } else if t == token_of(Encoding::Zstd) {
        Some(Encoding::Zstd)
    } else if t == token_of(Encoding::Identity) {
        Some(Encoding::Identity)
    } else {
        None
    }
}

/// Every token is read back as the coding it was written for.
pub proof fn lemma_token_round_trip(e: Encoding)
    ensures
        encoding_of_token(token_of(e)) == Some(e),
{
    let g = token_of(Encoding::Gzip);
    let d = token_of(Encoding::Deflate);
    let b = token_of(Encoding::Brotli);
    let z = token_of(Encoding::Zstd);
    let i = token_of(Encoding::Identity);
    assert(g.len() != d.len() && g.len() != b.len() && g.len() != i.len());
    assert(d.len() != b.len() && d.len() != z.len() && d.len() != i.len());
    assert(b.len() != z.len() && b.len() != i.len() && z.len() != i.len());
    assert(g[0] != z[0]);
}

/// Whether `t` holds exactly the characters of the literal `lit`.
fn chars_equal_str(t: &Vec<char>, lit: &str) -> (r: bool)
    ensures
        r == (t@ == lit@),
{
    let n = lit.unicode_len();
    if t.len() != n {
        return false;
    }
    let mut i: usize = 0;
    while i < n
        invariant
            n == lit@.len(),
            t@.len() == n,
            i <= n,
            forall|k: int| 0 <= k < i ==> t@[k] == lit@[k],
        decreases n - i,
    {
        if t[i] != lit.get_char(i) {
            return false;
        }
        i = i + 1;
    }
    assert(t@ =~= lit@);
    true
}

impl Encoding {
    /// The token by which this coding is written in a header.
    pub fn as_str(&self) -> (r: &'static str)
        ensures
            r@ == token_of(*self),
    {
        match self {
            Encoding::Gzip => {
                proof { reveal_strlit("gzip"); }
                "gzip"
            },
            Encoding::Deflate => {
                proof { reveal_strlit("deflate"); }
                "deflate"
            },
            Encoding::Brotli => {
                proof { reveal_strlit("br"); }
                "br"
            },
            Encoding::Zstd => {
                proof { reveal_strlit("zstd"); }
                "zstd"
            },
            Encoding::Identity => {
                proof { reveal_strlit("identity"); }
                "identity"
            },
        }
    }

    /// The coding named by the token `t`, or `None` for a token this
    /// library does not know.
    pub fn from_token(t: &Vec<char>) -> (r: Option<Encoding>)
        ensures
            r == encoding_of_token(t@),
    {
        if chars_equal_str(t, Encoding::Gzip.as_str()) {
            Some(Encoding::Gzip)
        } else if chars_equal_str(t, Encoding::Deflate.as_str()) {
            Some(Encoding::Deflate)
        } else if chars_equal_str(t, Encoding::Brotli.as_str()) {
            Some(Encoding::Brotli)
        } else if chars_equal_str(t, Encoding::Zstd.as_str()) {
            Some(Encoding::Zstd)
        } else if chars_equal_str(t, Encoding::Identity.as_str()) {
            Some(Encoding::Identity)
        } else {
            None
        }
    }
}

} // verus!
