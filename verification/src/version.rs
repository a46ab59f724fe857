//! Semantic versions: the data, and what the `semver` crate computes from it.

use vstd::prelude::*;
use std::cmp::Ordering;

verus! {

/// One dot-separated part of a pre-release tag or of build metadata.
#[derive(Debug)]
pub enum Identifier {
    /// A part made of digits only.
    Numeric(u64),
    /// A part with letters, digits or hyphens.
    AlphaNumeric(String),
}

/// The mathematical value of an [`Identifier`].
pub enum IdentifierView {
    Numeric(u64),
    AlphaNumeric(Seq<char>),
}

impl View for Identifier {
    type V = IdentifierView;

    open spec fn view(&self) -> IdentifierView {
        match self {
            Identifier::Numeric(n) => IdentifierView::Numeric(*n),
            Identifier::AlphaNumeric(s) => IdentifierView::AlphaNumeric(s@),
        }
    }
}

impl Identifier {
    /// Tells whether the two identifiers are equal.
    pub fn same(&self, other: &Identifier) -> (b: bool)
        ensures
            b == (self@ == other@),
    {
        match (self, other) {
            (Identifier::Numeric(a), Identifier::Numeric(b)) => *a == *b,
            (Identifier::AlphaNumeric(a), Identifier::AlphaNumeric(b)) => *a == *b,
            _ => false,
        }
    }
}

impl Clone for Identifier {
    fn clone(&self) -> (copy: Identifier)
        ensures
            copy@ == self@,
    {
        match self {
            Identifier::Numeric(n) => Identifier::Numeric(*n),
            Identifier::AlphaNumeric(s) => Identifier::AlphaNumeric(s.clone()),
        }
    }
}

/// The values of a list of identifiers, in order.
pub open spec fn identifiers_view(list: Seq<Identifier>) -> Seq<IdentifierView> {
    list.map_values(|i: Identifier| i@)
}

/// Tells whether two lists of identifiers are equal.
pub fn same_identifiers(a: &Vec<Identifier>, b: &Vec<Identifier>) -> (same: bool)
    ensures
        same == (identifiers_view(a@) == identifiers_view(b@)),
{
    if a.len() != b.len() {
        assert(identifiers_view(a@).len() != identifiers_view(b@).len());
        return false;
    }
    let mut i: usize = 0;
    while i < a.len()
        invariant
            i <= a.len(),
            a.len() == b.len(),
            forall|k: int| 0 <= k < i ==> a@[k]@ == b@[k]@,
        decreases a.len() - i,
    {
        if !a[i].same(&b[i]) {
            assert(identifiers_view(a@)[i as int] != identifiers_view(b@)[i as int]);
            return false;
        }
        i += 1;
    }
    assert(identifiers_view(a@) =~= identifiers_view(b@));
    true
}

/// Copies a list of identifiers.
pub fn clone_identifiers(list: &Vec<Identifier>) -> (copy: Vec<Identifier>)
    ensures
        identifiers_view(copy@) == identifiers_view(list@),
{
    let mut copy: Vec<Identifier> = Vec::new();
    let mut i: usize = 0;
    while i < list.len()
        invariant
            i <= list.len(),
            copy.len() == i,
            forall|k: int| 0 <= k < i ==> copy@[k]@ == list@[k]@,
        decreases list.len() - i,
    {
        copy.push(list[i].clone());
        i += 1;
    }
    assert(identifiers_view(copy@) =~= identifiers_view(list@));
    copy
}

/// A version number: `major.minor.patch`, an optional pre-release tag and
/// optional build metadata.
#[derive(Debug)]
pub struct Version {
    pub major: u64,
    pub minor: u64,
    pub patch: u64,
    pub pre: Vec<Identifier>,
    pub build: Vec<Identifier>,
}

/// The mathematical value of a [`Version`].
pub struct VersionView {
    pub major: u64,
    pub minor: u64,
    pub patch: u64,
    pub pre: Seq<IdentifierView>,
    pub build: Seq<IdentifierView>,
}

impl VersionView {
    /// The two versions are the same release: equal numbers and an equal
    /// pre-release tag, whatever the build metadata.
    pub open spec fn same_release(self, other: VersionView) -> bool {
        &&& self.major == other.major
        &&& self.minor == other.minor
        &&& self.patch == other.patch
        &&& self.pre == other.pre
    }
}

impl View for Version {
    type V = VersionView;

    open spec fn view(&self) -> VersionView {
        VersionView {
            major: self.major,
            minor: self.minor,
            patch: self.patch,
            pre: identifiers_view(self.pre@),
            build: identifiers_view(self.build@),
        }
    }
}

impl Clone for Version {
    fn clone(&self) -> (copy: Version)
        ensures
            copy@ == self@,
    {
        Version {
            major: self.major,
            minor: self.minor,
            patch: self.patch,
            pre: clone_identifiers(&self.pre),
            build: clone_identifiers(&self.build),
        }
    }
}

/// How one version stands to another in precedence.
#[derive(Clone, Copy, Debug, PartialEq, Eq, Structural)]
pub enum VersionOrder {
    Older,
    Same,
    Newer,
}

/// What `semver` reads from a text as a version: `None` where it refuses the
/// text.
pub uninterp spec fn parsed_version(text: Seq<char>) -> Option<VersionView>;

/// The precedence of `a` relative to `b` as `semver` orders versions.
pub uninterp spec fn version_order(a: VersionView, b: VersionView) -> VersionOrder;

/// How the number `a` stands to the number `b`.
pub open spec fn number_order(a: u64, b: u64) -> VersionOrder {
    if a < b {
        VersionOrder::Older
    } else if a == b {
        VersionOrder::Same
    } else {
        VersionOrder::Newer
    }
}

/// The precedence of `a` relative to `b`. The major numbers decide, then the
/// minor ones, then the patch numbers. Of two versions with the same numbers,
/// one without a pre-release tag is newer than one with a tag, and two without
/// one are the same. Two tags are ordered as `semver` orders them.
pub open spec fn precedence_of(a: VersionView, b: VersionView) -> VersionOrder {
    if a.major != b.major {
        number_order(a.major, b.major)
    } else if a.minor != b.minor {
        number_order(a.minor, b.minor)
    } else if a.patch != b.patch {
        number_order(a.patch, b.patch)
    } else if a.pre.len() == 0 && b.pre.len() == 0 {
        VersionOrder::Same
    } else if a.pre.len() == 0 {
        VersionOrder::Newer
    } else if b.pre.len() == 0 {
        VersionOrder::Older
    } else {
        version_order(a, b)
    }
}

/// The text that `semver` prints for a version.
pub uninterp spec fn version_text(v: VersionView) -> Seq<char>;

/// Calls `semver::Version::parse`. The contract names what the parser reads
/// from the text and says when the parser accepts it; the message of a refusal
/// is the parser's own and nothing is claimed of it.
#[verifier::external_body]
fn semver_parse(text: &str) -> (r: Result<Version, String>)
    ensures
        r matches Ok(v) ==> parsed_version(text@) == Some(v@),
        r is Err ==> parsed_version(text@) is None,
{
    let ids = |l: Vec<semver::Identifier>| l.into_iter().map(|i| match i {
        semver::Identifier::Numeric(n) => Identifier::Numeric(n),
        semver::Identifier::AlphaNumeric(s) => Identifier::AlphaNumeric(s),
    }).collect();
    match semver::Version::parse(text) {
        Ok(v) => Ok(Version { major: v.major, minor: v.minor, patch: v.patch, pre: ids(v.pre), build: ids(v.build) }),
        Err(e) => Err(e.to_string()),
    }
}

/// Calls `Ord::cmp` of `semver::Version` on the two versions. The contract
/// names the result, and states it as far as the numbers and the presence of a
/// pre-release tag decide it: only the order of two tags is left to the name.
#[verifier::external_body]
fn semver_precedence(a: &Version, b: &Version) -> (o: VersionOrder)
    ensures
        o == version_order(a@, b@),
        o == precedence_of(a@, b@),
{
    let ids = |l: &Vec<Identifier>| l.iter().map(|i| match i {
        Identifier::Numeric(n) => semver::Identifier::Numeric(*n),
        Identifier::AlphaNumeric(s) => semver::Identifier::AlphaNumeric(s.clone()),
    }).collect();
    let x = semver::Version { major: a.major, minor: a.minor, patch: a.patch, pre: ids(&a.pre), build: ids(&a.build) };
    let y = semver::Version { major: b.major, minor: b.minor, patch: b.patch, pre: ids(&b.pre), build: ids(&b.build) };
    match x.cmp(&y) {
        Ordering::Less => VersionOrder::Older,
        Ordering::Equal => VersionOrder::Same,
        Ordering::Greater => VersionOrder::Newer,
    }
}

/// Calls `to_string` of `semver::Version`. The contract names the text.
#[verifier::external_body]
fn semver_print(v: &Version) -> (s: String)
    ensures
        s@ == version_text(v@),
{
    let ids = |l: &Vec<Identifier>| l.iter().map(|i| match i {
        Identifier::Numeric(n) => semver::Identifier::Numeric(*n),
        Identifier::AlphaNumeric(s) => semver::Identifier::AlphaNumeric(s.clone()),
    }).collect();
    semver::Version { major: v.major, minor: v.minor, patch: v.patch, pre: ids(&v.pre), build: ids(&v.build) }.to_string()
}

impl Version {
    /// The version `major.minor.patch`, without pre-release tag or build
    /// metadata.
    pub fn new(major: u64, minor: u64, patch: u64) -> (v: Version)
        ensures
            v@ == (VersionView { major, minor, patch, pre: Seq::empty(), build: Seq::empty() }),
    {
        let v = Version { major, minor, patch, pre: Vec::new(), build: Vec::new() };
        assert(v@.pre =~= Seq::empty());
        assert(v@.build =~= Seq::empty());
        v
    }

    /// Reads a version from its text. Fails, with the parser's message, exactly
    /// where the parser refuses the text.
    pub fn parse(text: &str) -> (r: Result<Version, String>)
        ensures
            r matches Ok(v) ==> parsed_version(text@) == Some(v@),
            r is Err <==> parsed_version(text@) is None,
    {
        semver_parse(text)
    }

    /// Tells whether the two versions are the same release: equal numbers and
    /// an equal pre-release tag, whatever the build metadata.
    pub fn same_release(&self, other: &Version) -> (b: bool)
        ensures
            b == self@.same_release(other@),
    {
        self.major == other.major && self.minor == other.minor && self.patch == other.patch
            && same_identifiers(&self.pre, &other.pre)
    }

    /// Tells whether the two versions are equal in every part, the build
    /// metadata included.
    pub fn equals(&self, other: &Version) -> (b: bool)
        ensures
            b == (self@ == other@),
    {
        self.same_release(other) && same_identifiers(&self.build, &other.build)
    }

    /// The precedence of this version relative to `other`.
    pub fn precedence(&self, other: &Version) -> (o: VersionOrder)
        ensures
            o == precedence_of(self@, other@),
            o == version_order(self@, other@),
    {
        semver_precedence(self, other)
    }

    /// The text of the version.
    pub fn to_text(&self) -> (s: String)
        ensures
            s@ == version_text(self@),
    {
        semver_print(self)
    }
}

} // verus!
