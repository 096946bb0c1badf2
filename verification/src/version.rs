//! Version strings: three dotted integers, optionally followed by `-` and a
//! pre-release tail, ordered by the three integers.

use vstd::prelude::*;
use crate::error::Error;
use crate::number::{decimal, lemma_decimal_round_trip, number_of, parse_number, push_decimal};
use crate::size::Size;
use crate::text::{chars_of, find_char, first_index, lemma_first_index_unique, string_of};

verus! {

/// The three integers of a version.
#[derive(Clone, Copy, Debug, PartialEq, Eq, Structural, PartialOrd, Ord, Hash)]
pub struct Version {
    pub major: u32,
    pub minor: u32,
    pub patch: u32,
}

impl Version {
    /// Strictly older: lexicographic order on `(major, minor, patch)`.
    pub open spec fn before(self, other: Version) -> bool {
        ||| self.major < other.major
        ||| self.major == other.major && self.minor < other.minor
        ||| self.major == other.major && self.minor == other.minor && self.patch < other.patch
    }

    /// Older or equal.
    pub open spec fn at_most(self, other: Version) -> bool {
        self.before(other) || self == other
    }

    /// The text `major.minor.patch`.
    pub open spec fn text(self) -> Seq<char> {
        decimal(self.major as nat) + seq!['.'] + decimal(self.minor as nat) + seq!['.'] + decimal(
            self.patch as nat,
        )
    }

    pub fn is_older_than(&self, other: &Version) -> (r: bool)
        ensures
            r == self.before(*other),
    {
        self.major < other.major || (self.major == other.major && (self.minor < other.minor || (
        self.minor == other.minor && self.patch < other.patch)))
    }

    /// Writes the version as `major.minor.patch`.
    pub fn render(&self) -> (s: String)
        ensures
            s@ == self.text(),
    {
        let mut v: Vec<char> = Vec::new();
        push_decimal(&mut v, self.major);
        v.push('.');
        push_decimal(&mut v, self.minor);
        v.push('.');
        push_decimal(&mut v, self.patch);
        assert(v@ =~= self.text());
        string_of(&v)
    }
}

/// The part of a version string before its pre-release tail: everything up
/// to the first `-`.
pub open spec fn core_of(s: Seq<char>) -> Seq<char> {
    s.take(first_index(s, '-'))
}

/// The version that `s` writes, if it writes one.
///
/// The core of `s` must be three numbers separated by two dots, each a
/// non-empty run of decimal digits that fits in 32 bits. Whatever follows the
/// first `-` is a pre-release tail and plays no part in the ordering.
pub open spec fn version_of(s: Seq<char>) -> Option<Version> {
    let core = core_of(s);
    let d1 = first_index(core, '.');
    let rest = core.skip(d1 + 1);
    let d2 = first_index(rest, '.');
    let last = rest.skip(d2 + 1);
    if d1 < core.len() && d2 < rest.len() {
        match (number_of(core.take(d1)), number_of(rest.take(d2)), number_of(last)) {
            (Some(major), Some(minor), Some(patch)) => Some(Version { major, minor, patch }),
            _ => None,
        }
    } else {
        None
    }
}

/// Reads a version out of its characters.
pub fn parse_chars(v: &Vec<char>) -> (r: Option<Version>)
    ensures
        r == version_of(v@),
{
    let n: usize = v.len();
    let cut: usize = find_char(v, 0, n, '-');
    let d1: usize = find_char(v, 0, cut, '.');
    proof {
        assert(v@.subrange(0, n as int) =~= v@);
        assert(v@.subrange(0, cut as int) =~= core_of(v@));
    }
    if d1 >= cut {
        return None;
    }
    let d2: usize = find_char(v, d1 + 1, cut, '.');
    let ghost core = core_of(v@);
    let ghost rest = core.skip(d1 + 1);
    proof {
        assert(v@.subrange(d1 + 1, cut as int) =~= rest);
        assert(core.take(d1 as int) =~= v@.subrange(0, d1 as int));
    }
    if d2 >= cut {
        return None;
    }
    proof {
        assert(rest.take(d2 - (d1 + 1)) =~= v@.subrange(d1 + 1, d2 as int));
        assert(rest.skip(d2 - (d1 + 1) + 1) =~= v@.subrange(d2 + 1, cut as int));
    }
    let major = parse_number(v, 0, d1);
    let minor = parse_number(v, d1 + 1, d2);
    let patch = parse_number(v, d2 + 1, cut);
    match (major, minor, patch) {
        (Some(major), Some(minor), Some(patch)) => Some(Version { major, minor, patch }),
        _ => None,
    }
}

/// Reads a version string.
///
/// Returns `Some` exactly when the text is a version (see [`version_of`]).
pub fn parse(text: &str) -> (r: Option<Version>)
    ensures
        r == version_of(text@),
{
    let v = chars_of(text);
    parse_chars(&v)
}

proof fn lemma_text_shape(v: Version)
    ensures
        first_index(v.text(), '-') == v.text().len(),
{
    let a = decimal(v.major as nat);
    let b = decimal(v.minor as nat);
    let c = decimal(v.patch as nat);
    lemma_decimal_round_trip(v.major as nat);
    lemma_decimal_round_trip(v.minor as nat);
    lemma_decimal_round_trip(v.patch as nat);
    let s = v.text();
    assert forall|i: int| 0 <= i < s.len() implies s[i] != '-' by {
        if i < a.len() {
            assert(s[i] == a[i]);
        } else if i == a.len() {
        } else if i < a.len() + 1 + b.len() {
            assert(s[i] == b[i - a.len() - 1]);
        } else if i == a.len() + 1 + b.len() {
        } else {
            assert(s[i] == c[i - a.len() - b.len() - 2]);
        }
    }
    lemma_first_index_unique(s, '-', s.len() as int);
}

/// Writing a version and reading it back gives the same version.
pub proof fn lemma_render_round_trip(v: Version)
    ensures
        version_of(v.text()) == Some(v),
{
    let a = decimal(v.major as nat);
    let b = decimal(v.minor as nat);
    let c = decimal(v.patch as nat);
    lemma_decimal_round_trip(v.major as nat);
    lemma_decimal_round_trip(v.minor as nat);
    lemma_decimal_round_trip(v.patch as nat);
    let s = v.text();
    lemma_text_shape(v);
    let core = core_of(s);
    assert(core =~= s);
    assert forall|i: int| 0 <= i < a.len() implies core[i] != '.' by {
        assert(core[i] == a[i]);
    }
    assert(core[a.len() as int] == '.');
    lemma_first_index_unique(core, '.', a.len() as int);
    let rest = core.skip(a.len() as int + 1);
    assert(rest =~= b + seq!['.'] + c);
    assert forall|i: int| 0 <= i < b.len() implies rest[i] != '.' by {
        assert(rest[i] == b[i]);
    }
    assert(rest[b.len() as int] == '.');
    lemma_first_index_unique(rest, '.', b.len() as int);
    assert(core.take(a.len() as int) =~= a);
    assert(rest.take(b.len() as int) =~= b);
    assert(rest.skip(b.len() as int + 1) =~= c);
}

impl Size {
    /// The version that this size moves `v` to.
    ///
    /// `Major`, `Minor` and `Patch` raise their component by one and reset
    /// the components after it; `NoBump` keeps the version. `Empty` and
    /// `Failure` move nothing, and a component that is already `u32::MAX`
    /// cannot be raised.
    pub open spec fn bump(self, v: Version) -> Option<Version> {
        match self {
            Size::Major => if v.major < u32::MAX {
                Some(Version { major: (v.major + 1) as u32, minor: 0, patch: 0 })
            } else {
                None
            },
            Size::Minor => if v.minor < u32::MAX {
                Some(Version { major: v.major, minor: (v.minor + 1) as u32, patch: 0 })
            } else {
                None
            },
            Size::Patch => if v.patch < u32::MAX {
                Some(Version { major: v.major, minor: v.minor, patch: (v.patch + 1) as u32 })
            } else {
                None
            },
            Size::NoBump => Some(v),
            Size::Empty | Size::Failure => None,
        }
    }

    /// Whether the size moves versions at all.
    pub open spec fn applies(self) -> bool {
        self != Size::Empty && self != Size::Failure
    }

    /// The version string that this size turns `s` into.
    ///
    /// `NoBump` hands the string back as it is, pre-release tail included; a
    /// real bump writes the new triple without a tail.
    pub open spec fn applied(self, s: Seq<char>) -> Result<Seq<char>, Error> {
        if !self.applies() {
            Err(Error::SizeNotApplicable)
        } else {
            match version_of(s) {
                None => Err(Error::VersionParse),
                Some(v) => if self == Size::NoBump {
                    Ok(s)
                } else {
                    match self.bump(v) {
                        Some(t) => Ok(t.text()),
                        None => Err(Error::VersionOverflow),
                    }
                },
            }
        }
    }

    /// Executable form of [`Size::bump`].
    pub fn bump_version(self, v: Version) -> (r: Option<Version>)
        ensures
            r == self.bump(v),
    {
        match self {
            Size::Major => if v.major < u32::MAX {
                Some(Version { major: v.major + 1, minor: 0, patch: 0 })
            } else {
                None
            },
            Size::Minor => if v.minor < u32::MAX {
                Some(Version { major: v.major, minor: v.minor + 1, patch: 0 })
            } else {
                None
            },
            Size::Patch => if v.patch < u32::MAX {
                Some(Version { major: v.major, minor: v.minor, patch: v.patch + 1 })
            } else {
                None
            },
            Size::NoBump => Some(v),
            Size::Empty => None,
            Size::Failure => None,
        }
    }

    /// The three integers of a version string.
    pub fn parts(text: &str) -> (r: Result<Version, Error>)
        ensures
            r == match version_of(text@) {
                Some(v) => Ok::<Version, Error>(v),
                None => Err(Error::VersionParse),
            },
    {
        match parse(text) {
            Some(v) => Ok(v),
            None => Err(Error::VersionParse),
        }
    }

    /// Whether version string `a` is strictly older than `b`.
    pub fn less_than(a: &str, b: &str) -> (r: Result<bool, Error>)
        ensures
            r == match (version_of(a@), version_of(b@)) {
                (Some(x), Some(y)) => Ok::<bool, Error>(x.before(y)),
                _ => Err(Error::VersionParse),
            },
    {
        match (parse(a), parse(b)) {
            (Some(x), Some(y)) => Ok(x.is_older_than(&y)),
            _ => Err(Error::VersionParse),
        }
    }

    /// Applies the size to a version string.
    pub fn apply(self, text: &str) -> (r: Result<String, Error>)
        ensures
            match r {
                Ok(t) => self.applied(text@) == Ok::<Seq<char>, Error>(t@),
                Err(e) => self.applied(text@) == Err::<Seq<char>, Error>(e),
            },
    {
        match self {
            Size::Empty => {
                return Err(Error::SizeNotApplicable);
            },
            Size::Failure => {
                return Err(Error::SizeNotApplicable);
            },
            _ => {},
        }
        match parse(text) {
            None => Err(Error::VersionParse),
            Some(v) => {
                if self == Size::NoBump {
                    Ok(text.to_owned())
                } else {
                    match self.bump_version(v) {
                        Some(t) => Ok(t.render()),
                        None => Err(Error::VersionOverflow),
                    }
                }
            },
        }
    }
}

} // verus!
