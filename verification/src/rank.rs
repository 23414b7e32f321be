use vstd::prelude::*;
use crate::cache::Evr;
use crate::cache::EvrView;
use crate::prelude::Nevra;
use crate::prelude::NevraView;
use crate::text::chars_of;

verus! {

/// How one value stands to another in an order.
#[derive(Debug, Clone, Copy, PartialEq, Eq, Structural)]
pub enum Rank {
    Before,
    Same,
    After,
}

impl Rank {
    /// The rank seen from the other side.
    pub open spec fn flipped(self) -> Rank {
        match self {
            Rank::Before => Rank::After,
            Rank::Same => Rank::Same,
            Rank::After => Rank::Before,
        }
    }

    /// This rank, or `next` where this one does not tell the values apart.
    pub open spec fn or_else_by(self, next: Rank) -> Rank {
        if self is Same {
            next
        } else {
            self
        }
    }
}

/// How two integers stand to each other.
pub open spec fn int_rank(a: int, b: int) -> Rank {
    if a < b {
        Rank::Before
    } else if a == b {
        Rank::Same
    } else {
        Rank::After
    }
}

/// How two texts stand to each other: the first character in which they differ decides,
/// by its place among the characters; a text stands before every longer text that
/// begins with it.
pub open spec fn text_rank(a: Seq<char>, b: Seq<char>) -> Rank
    decreases a.len(),
{
    if a.len() == 0 {
        if b.len() == 0 {
            Rank::Same
        } else {
            Rank::Before
        }
    } else if b.len() == 0 {
        Rank::After
    } else if a[0] < b[0] {
        Rank::Before
    } else if b[0] < a[0] {
        Rank::After
    } else {
        text_rank(a.skip(1), b.skip(1))
    }
}

/// How two optional texts stand to each other: no text stands before every text.
pub open spec fn opt_text_rank(a: Option<Seq<char>>, b: Option<Seq<char>>) -> Rank {
    match (a, b) {
        (None, None) => Rank::Same,
        (None, Some(_)) => Rank::Before,
        (Some(_), None) => Rank::After,
        (Some(x), Some(y)) => text_rank(x, y),
    }
}

impl EvrView {
    /// How two values stand to each other: by epoch, then version, then release.
    pub open spec fn rank(self, other: EvrView) -> Rank {
        int_rank(self.epoch as int, other.epoch as int).or_else_by(
            text_rank(self.version, other.version).or_else_by(text_rank(self.release, other.release)),
        )
    }
}

impl NevraView {
    /// How two identities stand to each other: by name, then epoch, version, release and
    /// architecture.
    pub open spec fn rank(self, other: NevraView) -> Rank {
        text_rank(self.name, other.name).or_else_by(
            opt_text_rank(self.epoch, other.epoch).or_else_by(
                text_rank(self.version, other.version).or_else_by(
                    text_rank(self.release, other.release).or_else_by(text_rank(self.arch, other.arch)),
                ),
            ),
        )
    }
}

/// Two texts stand the same exactly when they are equal, and each stands to the other
/// as the other does not to it.
pub proof fn lemma_text_rank(a: Seq<char>, b: Seq<char>)
    ensures
        text_rank(a, b) is Same <==> a == b,
        text_rank(b, a) == text_rank(a, b).flipped(),
    decreases a.len(),
{
    if a.len() > 0 && b.len() > 0 && a[0] == b[0] {
        lemma_text_rank(a.skip(1), b.skip(1));
        if a.skip(1) == b.skip(1) {
            assert(a =~= seq![a[0]] + a.skip(1));
            assert(b =~= seq![b[0]] + b.skip(1));
        }
    }
    if a.len() == 0 && b.len() == 0 {
        assert(a =~= b);
    }
}

/// A text that stands before a second, which stands before or the same as a third,
/// stands before the third.
pub proof fn lemma_text_rank_transitive(a: Seq<char>, b: Seq<char>, c: Seq<char>)
    requires
        text_rank(a, b) is Before,
        text_rank(b, c) is Before || text_rank(b, c) is Same,
    ensures
        text_rank(a, c) is Before,
    decreases a.len(),
{
    lemma_text_rank(b, c);
    if text_rank(b, c) is Before && a.len() > 0 && b.len() > 0 && c.len() > 0 && a[0] == b[0]
        && b[0] == c[0] {
        lemma_text_rank_transitive(a.skip(1), b.skip(1), c.skip(1));
    }
}

/// The order of epochs, versions and releases is total: two values stand the same
/// exactly when they are equal, and each stands to the other as the other does not to
/// it.
pub proof fn lemma_evr_rank(a: EvrView, b: EvrView)
    ensures
        a.rank(b) is Same <==> a == b,
        b.rank(a) == a.rank(b).flipped(),
{
    lemma_text_rank(a.version, b.version);
    lemma_text_rank(a.release, b.release);
}

/// The order of package identities is total: two identities stand the same exactly when
/// they are equal, and each stands to the other as the other does not to it.
pub proof fn lemma_nevra_rank(a: NevraView, b: NevraView)
    ensures
        a.rank(b) is Same <==> a == b,
        b.rank(a) == a.rank(b).flipped(),
{
    lemma_text_rank(a.name, b.name);
    lemma_text_rank(a.version, b.version);
    lemma_text_rank(a.release, b.release);
    lemma_text_rank(a.arch, b.arch);
    match (a.epoch, b.epoch) {
        (Some(x), Some(y)) => {
            lemma_text_rank(x, y);
        },
        _ => {},
    }
}

/// How two texts stand to each other.
pub fn rank_texts(a: &str, b: &str) -> (r: Rank)
    ensures
        r == text_rank(a@, b@),
{
    let x = chars_of(a);
    let y = chars_of(b);
    let mut i: usize = 0;
    proof {
        assert(x@.skip(0) == x@);
        assert(y@.skip(0) == y@);
    }
    while i < x.len() && i < y.len()
        invariant
            i <= x.len(),
            i <= y.len(),
            x@ == a@,
            y@ == b@,
            text_rank(x@, y@) == text_rank(x@.skip(i as int), y@.skip(i as int)),
        decreases x.len() - i,
    {
        proof {
            assert(x@.skip(i as int)[0] == x@[i as int]);
            assert(y@.skip(i as int)[0] == y@[i as int]);
            assert(x@.skip(i as int).skip(1) == x@.skip(i + 1));
            assert(y@.skip(i as int).skip(1) == y@.skip(i + 1));
        }
        if x[i] < y[i] {
            return Rank::Before;
        }
        if y[i] < x[i] {
            return Rank::After;
        }
        i += 1;
    }
    if i < y.len() {
        Rank::Before
    } else if i < x.len() {
        Rank::After
    } else {
        Rank::Same
    }
}

fn rank_opt_texts(a: &Option<String>, b: &Option<String>) -> (r: Rank)
    ensures
        r == opt_text_rank(crate::prelude::opt_view(*a), crate::prelude::opt_view(*b)),
{
    match (a, b) {
        (None, None) => Rank::Same,
        (None, Some(_)) => Rank::Before,
        (Some(_), None) => Rank::After,
        (Some(x), Some(y)) => rank_texts(x.as_str(), y.as_str()),
    }
}

fn then_rank(first: Rank, a: &str, b: &str) -> (r: Rank)
    ensures
        r == first.or_else_by(text_rank(a@, b@)),
{
    match first {
        Rank::Same => rank_texts(a, b),
        _ => first,
    }
}

impl Evr {
    /// How this value stands to another: by epoch, then version, then release, texts
    /// character by character.
    pub fn rank(&self, other: &Evr) -> (r: Rank)
        ensures
            r == self@.rank(other@),
    {
        if self.0 < other.0 {
            Rank::Before
        } else if self.0 > other.0 {
            Rank::After
        } else {
            let version = rank_texts(self.1.as_str(), other.1.as_str());
            then_rank(version, self.2.as_str(), other.2.as_str())
        }
    }
}

impl Nevra {
    /// How this identity stands to another: by name, then epoch, version, release and
    /// architecture, texts character by character; an identity without an epoch stands
    /// before one that agrees in the name and has one.
    pub fn rank(&self, other: &Nevra) -> (r: Rank)
        ensures
            r == self@.rank(other@),
    {
        let name = rank_texts(self.name.as_str(), other.name.as_str());
        let epoch = match name {
            Rank::Same => rank_opt_texts(&self.epoch, &other.epoch),
            _ => name,
        };
        let version = then_rank(epoch, self.version.as_str(), other.version.as_str());
        let release = then_rank(version, self.release.as_str(), other.release.as_str());
        then_rank(release, self.arch.as_str(), other.arch.as_str())
    }
}

} // verus!
