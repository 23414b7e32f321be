use vstd::prelude::*;
use vstd::string::StringExecFns;
use vstd::string::StrSliceExecFns;
use crate::cache::Evr;
use crate::cache::EvrView;
use crate::text::all_digits;
use crate::text::append_i64;
use crate::text::chars_of;
use crate::text::i64_of_text;
use crate::text::int_text;
use crate::text::is_digit;
use crate::text::lemma_int_text_round_trip;
use crate::text::parse_i64;

verus! {

/// Paging of a listing: which page, and how many entries a page holds.
#[derive(Debug)]
pub struct PagingInfo {
    pub page: usize,
    pub page_size: usize,
}

/// A package identity: name, optional epoch, version, release and architecture.
#[derive(Debug, PartialEq, Eq, Ord, Hash)]
pub struct Nevra {
    pub name: String,
    pub epoch: Option<String>,
    pub version: String,
    pub release: String,
    pub arch: String,
}

/// What a `Nevra` holds, as plain values.
pub struct NevraView {
    pub name: Seq<char>,
    pub epoch: Option<Seq<char>>,
    pub version: Seq<char>,
    pub release: Seq<char>,
    pub arch: Seq<char>,
}

/// The characters of an optional string.
pub open spec fn opt_view(o: Option<String>) -> Option<Seq<char>> {
    match o {
        Some(s) => Some(s@),
        None => None,
    }
}

impl View for Nevra {
    type V = NevraView;

    open spec fn view(&self) -> NevraView {
        NevraView {
            name: self.name@,
            epoch: opt_view(self.epoch),
            version: self.version@,
            release: self.release@,
            arch: self.arch@,
        }
    }
}

/// A character that may stand in a package name.
pub open spec fn name_char(c: char) -> bool {
    c != ':' && c != '(' && c != ')' && c != '/' && c != '=' && c != '<' && c != '>' && c != ' '
}

/// A character that may stand in a version or a release.
pub open spec fn version_char(c: char) -> bool {
    c != '-' && c != ':' && c != '(' && c != '/' && c != '=' && c != '<' && c != '>' && c != ' '
}

/// A character that may stand in an architecture.
pub open spec fn arch_char(c: char) -> bool {
    version_char(c) && c != '.'
}

pub open spec fn all_name_chars(s: Seq<char>) -> bool {
    forall|i: int| 0 <= i < s.len() ==> name_char(#[trigger] s[i])
}

pub open spec fn all_version_chars(s: Seq<char>) -> bool {
    forall|i: int| 0 <= i < s.len() ==> version_char(#[trigger] s[i])
}

pub open spec fn all_arch_chars(s: Seq<char>) -> bool {
    forall|i: int| 0 <= i < s.len() ==> arch_char(#[trigger] s[i])
}

impl NevraView {
    /// Whether each part is present and holds only the characters its place allows.
    pub open spec fn well_formed(self) -> bool {
        &&& self.name.len() > 0 && all_name_chars(self.name)
        &&& self.epoch matches Some(e) ==> e.len() > 0 && all_digits(e)
        &&& self.version.len() > 0 && all_version_chars(self.version)
        &&& self.release.len() > 0 && all_version_chars(self.release)
        &&& self.arch.len() > 0 && all_arch_chars(self.arch)
    }

    /// The epoch written before the version, with its colon; nothing without an epoch.
    pub open spec fn epoch_text(self) -> Seq<char> {
        match self.epoch {
            Some(e) => e + seq![':'],
            None => Seq::empty(),
        }
    }

    /// The text `name-[epoch:]version-release.arch`.
    pub open spec fn text(self) -> Seq<char> {
        self.name + seq!['-'] + self.epoch_text() + self.version + seq!['-'] + self.release
            + seq!['.'] + self.arch
    }

    /// The epoch as a number: zero without an epoch, nothing where the text is no `i64`.
    pub open spec fn epoch_number(self) -> Option<i64> {
        match self.epoch {
            Some(e) => i64_of_text(e),
            None => Some(0i64),
        }
    }

    /// The epoch, version and release, where the epoch is a number.
    pub open spec fn evr(self) -> Option<EvrView> {
        match self.epoch_number() {
            Some(e) => Some(EvrView { epoch: e, version: self.version, release: self.release }),
            None => None,
        }
    }
}

/// The identity with the given name, version data and architecture; an epoch of zero is
/// left out.
pub open spec fn nevra_of_parts(name: Seq<char>, evr: EvrView, arch: Seq<char>) -> NevraView {
    NevraView {
        name,
        epoch: if evr.epoch == 0 {
            None
        } else {
            Some(int_text(evr.epoch as int))
        },
        version: evr.version,
        release: evr.release,
        arch,
    }
}

/// The last position of `c` in `s`, or -1.
pub open spec fn last_index_of(s: Seq<char>, c: char) -> int
    decreases s.len(),
{
    if s.len() == 0 {
        -1
    } else if s.last() == c {
        s.len() - 1
    } else {
        last_index_of(s.drop_last(), c)
    }
}

/// The first position of `c` in `s`, or -1.
pub open spec fn first_index_of(s: Seq<char>, c: char) -> int
    decreases s.len(),
{
    if s.len() == 0 {
        -1
    } else if s[0] == c {
        0
    } else {
        let r = first_index_of(s.skip(1), c);
        if r < 0 {
            -1
        } else {
            r + 1
        }
    }
}

/// The parts of `s` when it is cut at the hyphens `dash1` and `dash2`, at the dot `dot`
/// and, between the hyphens, at the colon `colon` (counted from behind `dash1`; negative
/// where there is none).
pub open spec fn nevra_at(s: Seq<char>, dash1: int, dash2: int, dot: int, colon: int) -> NevraView {
    let mid = s.subrange(dash1 + 1, dash2);
    NevraView {
        name: s.take(dash1),
        epoch: if colon < 0 {
            None
        } else {
            Some(mid.take(colon))
        },
        version: if colon < 0 {
            mid
        } else {
            mid.skip(colon + 1)
        },
        release: s.subrange(dash2 + 1, dot),
        arch: s.skip(dot + 1),
    }
}

/// The identity that `s` writes: the architecture follows the last dot, the release the
/// last hyphen, the version (with its epoch) the hyphen before that.
pub open spec fn parse_nevra(s: Seq<char>) -> Option<NevraView> {
    let dot = last_index_of(s, '.');
    let dash2 = last_index_of(s, '-');
    if dot < 0 || dash2 < 0 || dash2 > dot {
        None
    } else {
        let dash1 = last_index_of(s.take(dash2), '-');
        if dash1 < 0 {
            None
        } else {
            let colon = first_index_of(s.subrange(dash1 + 1, dash2), ':');
            let n = nevra_at(s, dash1, dash2, dot, colon);
            if n.well_formed() {
                Some(n)
            } else {
                None
            }
        }
    }
}

pub proof fn lemma_last_index_of(s: Seq<char>, c: char)
    ensures
        -1 <= last_index_of(s, c) < s.len(),
        last_index_of(s, c) >= 0 ==> s[last_index_of(s, c)] == c,
        forall|j: int| last_index_of(s, c) < j < s.len() ==> s[j] != c,
    decreases s.len(),
{
    if s.len() > 0 && s.last() != c {
        lemma_last_index_of(s.drop_last(), c);
        assert forall|j: int| last_index_of(s, c) < j < s.len() implies s[j] != c by {
            if j < s.len() - 1 {
                assert(s.drop_last()[j] == s[j]);
            }
        }
    }
}

pub proof fn lemma_last_index_is(s: Seq<char>, c: char, i: int)
    requires
        0 <= i < s.len(),
        s[i] == c,
        forall|j: int| i < j < s.len() ==> s[j] != c,
    ensures
        last_index_of(s, c) == i,
{
    lemma_last_index_of(s, c);
}

pub proof fn lemma_first_index_of(s: Seq<char>, c: char)
    ensures
        -1 <= first_index_of(s, c) < s.len(),
        first_index_of(s, c) >= 0 ==> s[first_index_of(s, c)] == c,
        first_index_of(s, c) >= 0 ==> forall|j: int| 0 <= j < first_index_of(s, c) ==> s[j] != c,
        first_index_of(s, c) < 0 ==> forall|j: int| 0 <= j < s.len() ==> s[j] != c,
    decreases s.len(),
{
    if s.len() > 0 && s[0] != c {
        let t = s.skip(1);
        lemma_first_index_of(t, c);
        let r = first_index_of(t, c);
        if r >= 0 {
            assert(t[r] == s[r + 1]);
            assert forall|j: int| 0 <= j < r + 1 implies s[j] != c by {
                if j > 0 {
                    assert(t[j - 1] == s[j]);
                }
            }
        } else {
            assert forall|j: int| 0 <= j < s.len() implies s[j] != c by {
                if j > 0 {
                    assert(t[j - 1] == s[j]);
                }
            }
        }
    }
}

pub proof fn lemma_first_index_is(s: Seq<char>, c: char, i: int)
    requires
        0 <= i < s.len(),
        s[i] == c,
        forall|j: int| 0 <= j < i ==> s[j] != c,
    ensures
        first_index_of(s, c) == i,
{
    lemma_first_index_of(s, c);
}

/// A text is read back as the identity it writes, and as no other: `parse_nevra(s)` is
/// `n` exactly when `n` is well formed and `s` is its text.
pub proof fn lemma_parse_nevra_sound(s: Seq<char>)
    ensures
        parse_nevra(s) matches Some(n) ==> n.well_formed() && n.text() == s,
{
    if let Some(n) = parse_nevra(s) {
        let dot = last_index_of(s, '.');
        let dash2 = last_index_of(s, '-');
        let dash1 = last_index_of(s.take(dash2), '-');
        let mid = s.subrange(dash1 + 1, dash2);
        let colon = first_index_of(mid, ':');
        lemma_last_index_of(s, '.');
        lemma_last_index_of(s, '-');
        lemma_last_index_of(s.take(dash2), '-');
        lemma_first_index_of(mid, ':');
        assert(s.take(dash2)[dash1] == s[dash1]);
        if colon >= 0 {
            assert(n.epoch_text() + n.version =~= mid);
        } else {
            assert(n.epoch_text() + n.version =~= mid);
        }
        assert(n.text() =~= n.name + seq!['-'] + (n.epoch_text() + n.version) + seq!['-']
            + n.release + seq!['.'] + n.arch);
        assert(n.text() =~= s);
    }
}

pub proof fn lemma_parse_nevra_complete(n: NevraView)
    requires
        n.well_formed(),
    ensures
        parse_nevra(n.text()) == Some(n),
{
    let s = n.text();
    let m = n.epoch_text() + n.version;
    let first = n.name.len() as int;
    let second = first + 1 + m.len();
    let third = second + 1 + n.release.len();
    assert(s =~= n.name + seq!['-'] + m + seq!['-'] + n.release + seq!['.'] + n.arch);
    assert(s.len() == third + 1 + n.arch.len());
    assert(s[first] == '-');
    assert(s[second] == '-');
    assert(s[third] == '.');
    assert forall|j: int| third < j < s.len() implies s[j] != '.' && s[j] != '-' by {
        assert(s[j] == n.arch[j - third - 1]);
        assert(arch_char(n.arch[j - third - 1]));
    }
    assert forall|j: int| second < j < third implies s[j] != '-' by {
        assert(s[j] == n.release[j - second - 1]);
        assert(version_char(n.release[j - second - 1]));
    }
    assert forall|j: int| 0 <= j < m.len() implies m[j] != '-' by {
        match n.epoch {
            Some(e) => {
                if j < e.len() {
                    assert(m[j] == e[j]);
                    assert(is_digit(e[j]));
                } else if j == e.len() {
                    assert(m[j] == ':');
                } else {
                    assert(m[j] == n.version[j - e.len() - 1]);
                    assert(version_char(n.version[j - e.len() - 1]));
                }
            },
            None => {
                assert(m[j] == n.version[j]);
                assert(version_char(n.version[j]));
            },
        }
    }
    assert forall|j: int| first < j < second implies s[j] != '-' by {
        assert(s[j] == m[j - first - 1]);
    }
    lemma_last_index_is(s, '.', third);
    lemma_last_index_is(s, '-', second);
    let head = s.take(second);
    assert(head[first] == '-');
    assert forall|j: int| first < j < head.len() implies head[j] != '-' by {
        assert(head[j] == s[j]);
    }
    lemma_last_index_is(head, '-', first);
    let mid = s.subrange(first + 1, second);
    assert(mid =~= m);
    match n.epoch {
        Some(e) => {
            let k = e.len() as int;
            assert(mid[k] == ':');
            assert forall|j: int| 0 <= j < k implies mid[j] != ':' by {
                assert(mid[j] == e[j]);
                assert(is_digit(e[j]));
            }
            lemma_first_index_is(mid, ':', k);
            assert(mid.take(k) =~= e);
            assert(mid.skip(k + 1) =~= n.version);
        },
        None => {
            lemma_first_index_of(mid, ':');
            if first_index_of(mid, ':') >= 0 {
                let k = first_index_of(mid, ':');
                assert(mid[k] == n.version[k]);
                assert(version_char(n.version[k]));
            }
        },
    }
    assert(s.take(first) =~= n.name);
    assert(s.subrange(second + 1, third) =~= n.release);
    assert(s.skip(third + 1) =~= n.arch);
}

/// `parse_nevra(s)` is `n` exactly when `n` is well formed and `s` is its text.
pub proof fn lemma_parse_nevra_exact(s: Seq<char>, n: NevraView)
    ensures
        parse_nevra(s) == Some(n) <==> n.well_formed() && n.text() == s,
{
    lemma_parse_nevra_sound(s);
    if n.well_formed() && n.text() == s {
        lemma_parse_nevra_complete(n);
    }
}

/// The places of a package identity, each with its own set of characters.
enum Place {
    Name,
    Epoch,
    Version,
    Arch,
}

spec fn fits(p: Place, c: char) -> bool {
    match p {
        Place::Name => name_char(c),
        Place::Epoch => is_digit(c),
        Place::Version => version_char(c),
        Place::Arch => arch_char(c),
    }
}

fn char_fits(p: &Place, c: char) -> (r: bool)
    ensures
        r == fits(*p, c),
{
    let version = c != '-' && c != ':' && c != '(' && c != '/' && c != '=' && c != '<' && c != '>'
        && c != ' ';
    match p {
        Place::Name => c != ':' && c != '(' && c != ')' && c != '/' && c != '=' && c != '<' && c
            != '>' && c != ' ',
        Place::Epoch => c >= '0' && c <= '9',
        Place::Version => version,
        Place::Arch => version && c != '.',
    }
}

/// Whether the characters of `v` from `a` up to `b` are at least one, and all fit `p`.
fn part_fits(v: &Vec<char>, a: usize, b: usize, p: &Place) -> (r: bool)
    requires
        a <= b <= v.len(),
    ensures
        r == part_ok(v@, a as int, b as int, *p),
{
    if a == b {
        return false;
    }
    let mut i: usize = a;
    while i < b
        invariant
            a <= i <= b <= v.len(),
            forall|j: int| a <= j < i ==> fits(*p, #[trigger] v@[j]),
        decreases b - i,
    {
        if !char_fits(p, v[i]) {
            return false;
        }
        i += 1;
    }
    true
}

/// The last position of `c` among the first `end` characters of `v`.
pub(crate) fn last_position(v: &Vec<char>, end: usize, c: char) -> (r: Option<usize>)
    requires
        end <= v.len(),
    ensures
        match r {
            Some(i) => i == last_index_of(v@.take(end as int), c),
            None => last_index_of(v@.take(end as int), c) < 0,
        },
{
    let ghost s = v@.take(end as int);
    let mut i: usize = end;
    while i > 0
        invariant
            i <= end <= v.len(),
            s == v@.take(end as int),
            forall|j: int| i <= j < end ==> s[j] != c,
        decreases i,
    {
        i -= 1;
        if v[i] == c {
            proof {
                lemma_last_index_is(s, c, i as int);
            }
            return Some(i);
        }
    }
    proof {
        lemma_last_index_of(s, c);
    }
    None
}

/// The first position of `c` in `v` from `a` up to `b`, counted from `a`.
fn first_position(v: &Vec<char>, a: usize, b: usize, c: char) -> (r: Option<usize>)
    requires
        a <= b <= v.len(),
    ensures
        match r {
            Some(i) => i == first_index_of(v@.subrange(a as int, b as int), c),
            None => first_index_of(v@.subrange(a as int, b as int), c) < 0,
        },
{
    let ghost s = v@.subrange(a as int, b as int);
    let mut i: usize = a;
    while i < b
        invariant
            a <= i <= b <= v.len(),
            s == v@.subrange(a as int, b as int),
            forall|j: int| 0 <= j < i - a ==> s[j] != c,
        decreases b - i,
    {
        if v[i] == c {
            proof {
                lemma_first_index_is(s, c, i - a);
            }
            return Some(i - a);
        }
        i += 1;
    }
    proof {
        lemma_first_index_of(s, c);
    }
    None
}

pub(crate) fn piece(s: &str, a: usize, b: usize) -> (r: String)
    requires
        a <= b <= s@.len(),
    ensures
        r@ == s@.subrange(a as int, b as int),
{
    String::from_str(s.substring_char(a, b))
}

/// Where a package identity is cut into its parts.
struct Cuts {
    dash1: usize,
    dash2: usize,
    dot: usize,
    colon: Option<usize>,
}

impl Cuts {
    spec fn colon_int(&self) -> int {
        match self.colon {
            Some(c) => c as int,
            None => -1,
        }
    }

    spec fn cuts_of(&self, s: Seq<char>) -> bool {
        &&& self.dash1 < self.dash2 < self.dot < s.len()
        &&& self.dot == last_index_of(s, '.')
        &&& self.dash2 == last_index_of(s, '-')
        &&& self.dash1 == last_index_of(s.take(self.dash2 as int), '-')
        &&& self.colon_int() < self.dash2 - self.dash1 - 1
        &&& match self.colon {
            Some(c) => c == first_index_of(s.subrange(self.dash1 + 1, self.dash2 as int), ':'),
            None => first_index_of(s.subrange(self.dash1 + 1, self.dash2 as int), ':') < 0,
        }
    }
}

fn cut_points(v: &Vec<char>) -> (r: Option<Cuts>)
    ensures
        match r {
            Some(c) => c.cuts_of(v@),
            None => parse_nevra(v@) is None,
        },
{
    let len = v.len();
    proof {
        assert(v@.take(len as int) == v@);
        lemma_last_index_of(v@, '.');
        lemma_last_index_of(v@, '-');
    }
    let dot = match last_position(v, len, '.') {
        Some(i) => i,
        None => {
            return None;
        },
    };
    let dash2 = match last_position(v, len, '-') {
        Some(i) => i,
        None => {
            return None;
        },
    };
    if dash2 > dot {
        return None;
    }
    proof {
        lemma_last_index_of(v@.take(dash2 as int), '-');
    }
    let dash1 = match last_position(v, dash2, '-') {
        Some(i) => i,
        None => {
            return None;
        },
    };
    proof {
        lemma_first_index_of(v@.subrange(dash1 + 1, dash2 as int), ':');
    }
    let colon = first_position(v, dash1 + 1, dash2, ':');
    Some(Cuts { dash1, dash2, dot, colon })
}

proof fn lemma_parts_fit(s: Seq<char>, c: Cuts)
    requires
        c.cuts_of(s),
    ensures
        ({
            let n = nevra_at(s, c.dash1 as int, c.dash2 as int, c.dot as int, c.colon_int());
            let from = c.dash1 + 1 + c.colon_int() + 1;
            &&& n.name.len() > 0 && all_name_chars(n.name) <==> part_ok(s, 0, c.dash1 as int, Place::Name)
            &&& n.version.len() > 0 && all_version_chars(n.version) <==> part_ok(
                s,
                from,
                c.dash2 as int,
                Place::Version,
            )
            &&& n.release.len() > 0 && all_version_chars(n.release) <==> part_ok(
                s,
                c.dash2 + 1,
                c.dot as int,
                Place::Version,
            )
            &&& n.arch.len() > 0 && all_arch_chars(n.arch) <==> part_ok(
                s,
                c.dot + 1,
                s.len() as int,
                Place::Arch,
            )
            &&& n.epoch matches Some(e) ==> (e.len() > 0 && all_digits(e) <==> part_ok(
                s,
                c.dash1 + 1,
                c.dash1 + 1 + c.colon_int(),
                Place::Epoch,
            ))
        }),
{
    let n = nevra_at(s, c.dash1 as int, c.dash2 as int, c.dot as int, c.colon_int());
    let from = c.dash1 + 1 + c.colon_int() + 1;
    lemma_part_ok(s, 0, c.dash1 as int, Place::Name);
    assert(n.name =~= s.subrange(0, c.dash1 as int));
    lemma_part_ok(s, from, c.dash2 as int, Place::Version);
    assert(n.version =~= s.subrange(from, c.dash2 as int));
    lemma_part_ok(s, c.dash2 + 1, c.dot as int, Place::Version);
    lemma_part_ok(s, c.dot + 1, s.len() as int, Place::Arch);
    assert(n.arch =~= s.subrange(c.dot + 1, s.len() as int));
    if let Some(k) = c.colon {
        lemma_part_ok(s, c.dash1 + 1, c.dash1 + 1 + k, Place::Epoch);
        assert(n.epoch->0 =~= s.subrange(c.dash1 + 1, c.dash1 + 1 + k));
    }
}

fn parts_fit(v: &Vec<char>, c: &Cuts) -> (r: bool)
    requires
        c.cuts_of(v@),
    ensures
        r == nevra_at(v@, c.dash1 as int, c.dash2 as int, c.dot as int, c.colon_int()).well_formed(),
        r == (parse_nevra(v@) is Some),
        r ==> parse_nevra(v@) == Some(
            nevra_at(v@, c.dash1 as int, c.dash2 as int, c.dot as int, c.colon_int()),
        ),
{
    assert(c.dash1 < c.dash2 < c.dot < v.len());
    proof {
        lemma_parts_fit(v@, *c);
    }
    let name_ok = part_fits(v, 0, c.dash1, &Place::Name);
    let release_ok = part_fits(v, c.dash2 + 1, c.dot, &Place::Version);
    let arch_ok = part_fits(v, c.dot + 1, v.len(), &Place::Arch);
    let middle_ok = match c.colon {
        Some(k) => part_fits(v, c.dash1 + 1, c.dash1 + 1 + k, &Place::Epoch) && part_fits(
            v,
            c.dash1 + 1 + k + 1,
            c.dash2,
            &Place::Version,
        ),
        None => part_fits(v, c.dash1 + 1, c.dash2, &Place::Version),
    };
    name_ok && release_ok && arch_ok && middle_ok
}

impl Nevra {
    /// Reads `name-[epoch:]version-release.arch`. The text is taken apart at its last dot
    /// and its last two hyphens; it is refused where a part is empty or holds a character
    /// that its place does not allow.
    pub fn from_str(s: &str) -> (r: Result<Nevra, ()>)
        ensures
            match r {
                Ok(n) => parse_nevra(s@) == Some(n@),
                Err(_) => parse_nevra(s@) is None,
            },
    {
        let v = chars_of(s);
        let cuts = match cut_points(&v) {
            Some(c) => c,
            None => {
                return Err(());
            },
        };
        if !parts_fit(&v, &cuts) {
            return Err(());
        }
        let ghost n = nevra_at(s@, cuts.dash1 as int, cuts.dash2 as int, cuts.dot as int, cuts.colon_int());
        let r = match cuts.colon {
            Some(c) => Nevra {
                name: piece(s, 0, cuts.dash1),
                epoch: Some(piece(s, cuts.dash1 + 1, cuts.dash1 + 1 + c)),
                version: piece(s, cuts.dash1 + 1 + c + 1, cuts.dash2),
                release: piece(s, cuts.dash2 + 1, cuts.dot),
                arch: piece(s, cuts.dot + 1, v.len()),
            },
            None => Nevra {
                name: piece(s, 0, cuts.dash1),
                epoch: None,
                version: piece(s, cuts.dash1 + 1, cuts.dash2),
                release: piece(s, cuts.dash2 + 1, cuts.dot),
                arch: piece(s, cuts.dot + 1, v.len()),
            },
        };
        proof {
            assert(r.name@ =~= n.name);
            assert(r.version@ =~= n.version);
            assert(r.release@ =~= n.release);
            assert(r.arch@ =~= n.arch);
            if let Some(c) = cuts.colon {
                assert(r.epoch->0@ =~= n.epoch->0);
            }
        }
        Ok(r)
    }

    /// Writes the identity as `name-[epoch:]version-release.arch`.
    pub fn to_string(&self) -> (r: String)
        ensures
            r@ == self@.text(),
    {
        proof {
            reveal_strlit("-");
            reveal_strlit(":");
            reveal_strlit(".");
        }
        let mut out = String::new();
        out.append(self.name.as_str());
        out.append("-");
        match &self.epoch {
            Some(e) => {
                out.append(e.as_str());
                out.append(":");
            },
            None => {},
        }
        out.append(self.version.as_str());
        out.append("-");
        out.append(self.release.as_str());
        out.append(".");
        out.append(self.arch.as_str());
        assert(out@ =~= self@.text());
        out
    }

    /// Puts an identity together from a name, version data and an architecture. An
    /// epoch of zero is left out; any other is written in decimal.
    pub fn from_name_evr_arch(name: String, evr: Evr, arch: String) -> (r: Nevra)
        ensures
            r@ == nevra_of_parts(name@, evr@, arch@),
    {
        let Evr(number, version, release) = evr;
        let epoch = if number != 0 {
            let mut text = String::new();
            append_i64(&mut text, number);
            assert(text@ =~= int_text(number as int));
            Some(text)
        } else {
            None
        };
        Nevra { name, epoch, version, release, arch }
    }

    /// The epoch, version and release, if the epoch is a number that fits an `i64`; an
    /// identity without an epoch has epoch zero.
    pub fn checked_evr(&self) -> (r: Option<Evr>)
        ensures
            match r {
                Some(e) => self@.evr() == Some(e@),
                None => self@.evr() is None,
            },
    {
        let epoch = match &self.epoch {
            Some(e) => match parse_i64(e.as_str()) {
                Some(n) => n,
                None => {
                    return None;
                },
            },
            None => 0,
        };
        Some(Evr(epoch, self.version.clone(), self.release.clone()))
    }

    /// The epoch, version and release of an identity whose epoch is a number.
    pub fn evr(&self) -> (r: Evr)
        requires
            self@.epoch_number() is Some,
        ensures
            self@.evr() == Some(r@),
    {
        match self.checked_evr() {
            Some(e) => e,
            None => Evr(0, self.version.clone(), self.release.clone()),
        }
    }
}

impl Clone for Nevra {
    fn clone(&self) -> (r: Self)
        ensures
            r@ == self@,
    {
        Nevra {
            name: self.name.clone(),
            epoch: match &self.epoch {
                Some(e) => Some(e.clone()),
                None => None,
            },
            version: self.version.clone(),
            release: self.release.clone(),
            arch: self.arch.clone(),
        }
    }
}

spec fn part_ok(v: Seq<char>, a: int, b: int, p: Place) -> bool {
    a < b && forall|j: int| a <= j < b ==> fits(p, #[trigger] v[j])
}

proof fn lemma_part_ok(v: Seq<char>, a: int, b: int, p: Place)
    requires
        0 <= a <= b <= v.len(),
    ensures
        part_ok(v, a, b, p) <==> v.subrange(a, b).len() > 0 && forall|i: int|
            0 <= i < v.subrange(a, b).len() ==> fits(p, #[trigger] v.subrange(a, b)[i]),
{
    let s = v.subrange(a, b);
    if part_ok(v, a, b, p) {
        assert forall|i: int| 0 <= i < s.len() implies fits(p, #[trigger] s[i]) by {
            assert(s[i] == v[a + i]);
        }
    }
    if s.len() > 0 && forall|i: int| 0 <= i < s.len() ==> fits(p, #[trigger] s[i]) {
        assert forall|j: int| a <= j < b implies fits(p, #[trigger] v[j]) by {
            assert(s[j - a] == v[j]);
        }
    }
}

/// An identity put together from a name, version data and an architecture gives that
/// version data back.
pub proof fn lemma_nevra_of_parts_evr(name: Seq<char>, evr: EvrView, arch: Seq<char>)
    ensures
        nevra_of_parts(name, evr, arch).evr() == Some(evr),
{
    lemma_int_text_round_trip(evr.epoch as int);
}

} // verus!
