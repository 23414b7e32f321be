use vstd::prelude::*;
use vstd::string::StringExecFns;
use crate::cache::Evr;
use crate::cache::EvrView;
use crate::cache::NevraId;
use crate::prelude::last_index_of;
use crate::prelude::last_position;
use crate::prelude::lemma_last_index_is;
use crate::prelude::lemma_last_index_of;
use crate::prelude::piece;
use crate::text::append_i64;
use crate::text::chars_of;
use crate::text::i64_of_text;
use crate::text::int_text;
use crate::text::lemma_int_text_chars;
use crate::text::lemma_int_text_round_trip;
use crate::text::parse_i64;

verus! {

/// Why a colon-joined text was refused.
#[derive(Debug, Clone, Copy, PartialEq, Eq, Structural)]
pub enum ParseError {
    /// The text holds fewer than three parts.
    TooFewParts,
    /// A part that stands for a number is not the decimal text of an `i64`.
    NotANumber,
}

/// The last three parts of a text that colons divide; nothing where it has fewer than
/// two colons.
pub open spec fn last_three(s: Seq<char>) -> Option<(Seq<char>, Seq<char>, Seq<char>)> {
    let c2 = last_index_of(s, ':');
    if c2 < 0 {
        None
    } else {
        let c1 = last_index_of(s.take(c2), ':');
        if c1 < 0 {
            None
        } else {
            let c0 = last_index_of(s.take(c1), ':');
            Some((s.subrange(c0 + 1, c1), s.subrange(c1 + 1, c2), s.skip(c2 + 1)))
        }
    }
}

/// The epoch, version and release that the text `epoch:version:release` writes.
pub open spec fn parse_evr(s: Seq<char>) -> Result<EvrView, ParseError> {
    match last_three(s) {
        None => Err(ParseError::TooFewParts),
        Some((epoch, version, release)) => match i64_of_text(epoch) {
            None => Err(ParseError::NotANumber),
            Some(e) => Ok(EvrView { epoch: e, version, release }),
        },
    }
}

/// The text `epoch:version:release`.
pub open spec fn evr_text(e: EvrView) -> Seq<char> {
    int_text(e.epoch as int) + seq![':'] + e.version + seq![':'] + e.release
}

/// The three ids that the text `name:evr:arch` writes.
pub open spec fn parse_nevra_id(s: Seq<char>) -> Result<NevraId, ParseError> {
    match last_three(s) {
        None => Err(ParseError::TooFewParts),
        Some((name, evr, arch)) => match (i64_of_text(name), i64_of_text(evr), i64_of_text(arch)) {
            (Some(n), Some(e), Some(a)) => Ok(NevraId(n, e, a)),
            _ => Err(ParseError::NotANumber),
        },
    }
}

/// The text `name:evr:arch` of three ids.
pub open spec fn nevra_id_text(t: NevraId) -> Seq<char> {
    int_text(t.0 as int) + seq![':'] + int_text(t.1 as int) + seq![':'] + int_text(t.2 as int)
}

/// Where the last three parts of a text begin and end: the first part runs from
/// `start` to `c1`, the second from behind `c1` to `c2`, the third from behind `c2`.
struct Parts {
    start: usize,
    c1: usize,
    c2: usize,
}

fn split_parts(v: &Vec<char>) -> (r: Option<Parts>)
    ensures
        match r {
            Some(p) => p.start <= p.c1 < p.c2 < v@.len() && last_three(v@) == Some(
                (
                    v@.subrange(p.start as int, p.c1 as int),
                    v@.subrange(p.c1 + 1, p.c2 as int),
                    v@.skip(p.c2 + 1),
                ),
            ),
            None => last_three(v@) is None,
        },
{
    let len = v.len();
    proof {
        assert(v@.take(len as int) == v@);
        lemma_last_index_of(v@, ':');
    }
    let c2 = match last_position(v, len, ':') {
        Some(i) => i,
        None => {
            return None;
        },
    };
    proof {
        lemma_last_index_of(v@.take(c2 as int), ':');
    }
    let c1 = match last_position(v, c2, ':') {
        Some(i) => i,
        None => {
            return None;
        },
    };
    proof {
        lemma_last_index_of(v@.take(c1 as int), ':');
    }
    let start = match last_position(v, c1, ':') {
        Some(i) => i + 1,
        None => 0,
    };
    Some(Parts { start, c1, c2 })
}

impl Evr {
    /// Reads `epoch:version:release`. Of a text with more than three parts the last
    /// three count. The text is refused where it has fewer than three parts, or where
    /// the epoch is not the decimal text of an `i64`.
    pub fn from_str(s: &str) -> (r: Result<Evr, ParseError>)
        ensures
            match r {
                Ok(e) => parse_evr(s@) == Ok::<EvrView, ParseError>(e@),
                Err(why) => parse_evr(s@) == Err::<EvrView, ParseError>(why),
            },
    {
        let v = chars_of(s);
        let p = match split_parts(&v) {
            Some(p) => p,
            None => {
                return Err(ParseError::TooFewParts);
            },
        };
        let epoch = match parse_i64(piece(s, p.start, p.c1).as_str()) {
            Some(e) => e,
            None => {
                return Err(ParseError::NotANumber);
            },
        };
        let r = Evr(epoch, piece(s, p.c1 + 1, p.c2), piece(s, p.c2 + 1, v.len()));
        proof {
            assert(r.2@ =~= s@.skip(p.c2 + 1));
        }
        Ok(r)
    }

    /// Writes `epoch:version:release`, the epoch in decimal.
    pub fn to_string(&self) -> (r: String)
        ensures
            r@ == evr_text(self@),
    {
        proof {
            reveal_strlit(":");
        }
        let mut out = String::new();
        append_i64(&mut out, self.0);
        out.append(":");
        out.append(self.1.as_str());
        out.append(":");
        out.append(self.2.as_str());
        assert(out@ =~= evr_text(self@));
        out
    }
}

impl NevraId {
    /// Reads `name:evr:arch`, three ids in decimal. Of a text with more than three parts
    /// the last three count. The text is refused where it has fewer than three parts, or
    /// where one of them is not the decimal text of an `i64`.
    pub fn from_str(s: &str) -> (r: Result<NevraId, ParseError>)
        ensures
            r == parse_nevra_id(s@),
    {
        let v = chars_of(s);
        let p = match split_parts(&v) {
            Some(p) => p,
            None => {
                return Err(ParseError::TooFewParts);
            },
        };
        let name = parse_i64(piece(s, p.start, p.c1).as_str());
        let evr = parse_i64(piece(s, p.c1 + 1, p.c2).as_str());
        let arch = parse_i64(piece(s, p.c2 + 1, v.len()).as_str());
        proof {
            assert(s@.subrange(p.c2 + 1, v.len() as int) =~= s@.skip(p.c2 + 1));
        }
        match (name, evr, arch) {
            (Some(n), Some(e), Some(a)) => Ok(NevraId(n, e, a)),
            _ => Err(ParseError::NotANumber),
        }
    }

    /// Writes `name:evr:arch`, each id in decimal.
    pub fn to_string(&self) -> (r: String)
        ensures
            r@ == nevra_id_text(*self),
    {
        proof {
            reveal_strlit(":");
        }
        let mut out = String::new();
        append_i64(&mut out, self.0);
        out.append(":");
        append_i64(&mut out, self.1);
        out.append(":");
        append_i64(&mut out, self.2);
        assert(out@ =~= nevra_id_text(*self));
        out
    }
}

/// A text of three parts, the first of which holds no colon and the second none either,
/// is taken apart into those parts.
proof fn lemma_last_three(a: Seq<char>, b: Seq<char>, c: Seq<char>)
    requires
        forall|i: int| 0 <= i < a.len() ==> a[i] != ':',
        forall|i: int| 0 <= i < b.len() ==> b[i] != ':',
        forall|i: int| 0 <= i < c.len() ==> c[i] != ':',
    ensures
        last_three(a + seq![':'] + b + seq![':'] + c) == Some((a, b, c)),
{
    let s = a + seq![':'] + b + seq![':'] + c;
    let c1 = a.len() as int;
    let c2 = c1 + 1 + b.len();
    assert(s[c1] == ':');
    assert(s[c2] == ':');
    assert forall|j: int| c2 < j < s.len() implies s[j] != ':' by {
        assert(s[j] == c[j - c2 - 1]);
    }
    lemma_last_index_is(s, ':', c2);
    let head = s.take(c2);
    assert(head[c1] == ':');
    assert forall|j: int| c1 < j < head.len() implies head[j] != ':' by {
        assert(head[j] == b[j - c1 - 1]);
    }
    lemma_last_index_is(head, ':', c1);
    let front = head.take(c1);
    assert(front =~= a);
    lemma_last_index_of(front, ':');
    assert(last_index_of(front, ':') == -1) by {
        if last_index_of(front, ':') >= 0 {
            assert(a[last_index_of(front, ':')] != ':');
        }
    }
    assert(s.subrange(0, c1) =~= a);
    assert(s.subrange(c1 + 1, c2) =~= b);
    assert(s.skip(c2 + 1) =~= c);
}

/// What is written of an epoch, a version and a release without colons is read back as
/// the same.
pub proof fn lemma_evr_round_trip(e: EvrView)
    requires
        forall|i: int| 0 <= i < e.version.len() ==> e.version[i] != ':',
        forall|i: int| 0 <= i < e.release.len() ==> e.release[i] != ':',
    ensures
        parse_evr(evr_text(e)) == Ok::<EvrView, ParseError>(e),
{
    let epoch = int_text(e.epoch as int);
    assert forall|i: int| 0 <= i < epoch.len() implies epoch[i] != ':' by {
        lemma_int_text_chars(e.epoch as int, i);
    }
    lemma_last_three(epoch, e.version, e.release);
    lemma_int_text_round_trip(e.epoch as int);
}

/// What is written of three ids is read back as the same.
pub proof fn lemma_nevra_id_round_trip(t: NevraId)
    ensures
        parse_nevra_id(nevra_id_text(t)) == Ok::<NevraId, ParseError>(t),
{
    let a = int_text(t.0 as int);
    let b = int_text(t.1 as int);
    let c = int_text(t.2 as int);
    assert forall|i: int| 0 <= i < a.len() implies a[i] != ':' by {
        lemma_int_text_chars(t.0 as int, i);
    }
    assert forall|i: int| 0 <= i < b.len() implies b[i] != ':' by {
        lemma_int_text_chars(t.1 as int, i);
    }
    assert forall|i: int| 0 <= i < c.len() implies c[i] != ':' by {
        lemma_int_text_chars(t.2 as int, i);
    }
    lemma_last_three(a, b, c);
    lemma_int_text_round_trip(t.0 as int);
    lemma_int_text_round_trip(t.1 as int);
    lemma_int_text_round_trip(t.2 as int);
}

} // verus!
