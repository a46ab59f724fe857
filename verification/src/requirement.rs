//! Version requirements: a comparison operator with a bound, or "any version".

use vstd::prelude::*;
use vstd::string::StringExecFns;
use crate::version::{Identifier, Version, VersionView};

verus! {

/// The comparison operators of a package reference, in the order in which a
/// reference is searched for them.
#[derive(Clone, Copy, Debug, PartialEq, Eq, Structural)]
pub enum Operator {
    /// `==`
    Equal,
    /// `>=`
    GreaterEq,
    /// `<=`
    LessEq,
    /// `>`
    Greater,
    /// `<`
    Less,
}

impl Operator {
    /// The characters of the operator in a package reference.
    pub open spec fn spec_token(self) -> Seq<char> {
        match self {
            Operator::Equal => seq!['=', '='],
            Operator::GreaterEq => seq!['>', '='],
            Operator::LessEq => seq!['<', '='],
            Operator::Greater => seq!['>'],
            Operator::Less => seq!['<'],
        }
    }

    /// The characters that stand for the operator in a `semver` requirement:
    /// equality is a single `=` there.
    pub open spec fn spec_semver_token(self) -> Seq<char> {
        match self {
            Operator::Equal => seq!['='],
            _ => self.spec_token(),
        }
    }

    /// The operator as it is written in a package reference.
    pub fn token(&self) -> (t: &'static str)
        ensures
            t@ == self.spec_token(),
    {
        proof {
            reveal_strlit("==");
            reveal_strlit(">=");
            reveal_strlit("<=");
            reveal_strlit(">");
            reveal_strlit("<");
        }
        let t = match self {
            Operator::Equal => "==",
            Operator::GreaterEq => ">=",
            Operator::LessEq => "<=",
            Operator::Greater => ">",
            Operator::Less => "<",
        };
        assert(t@ =~= self.spec_token());
        t
    }

    /// The operator as `semver` writes it.
    pub fn semver_token(&self) -> (t: &'static str)
        ensures
            t@ == self.spec_semver_token(),
    {
        match self {
            Operator::Equal => {
                proof {
                    reveal_strlit("=");
                }
                let t = "=";
                assert(t@ =~= self.spec_semver_token());
                t
            },
            _ => self.token(),
        }
    }
}

/// Why a text is no version requirement.
#[derive(Clone, Copy, Debug, PartialEq, Eq, Structural)]
pub enum ReqParseError {
    /// The text is not a requirement.
    InvalidVersionRequirement,
    /// More than one operator was given.
    OpAlreadySet,
    /// The operator is not a known one.
    InvalidSigil,
    /// A part of the version is not a number.
    VersionComponentsMustBeNumeric,
    /// A pre-release identifier is malformed.
    InvalidIdentifier,
    /// The major number is missing.
    MajorVersionRequired,
    /// The form of requirement is not supported.
    UnimplementedVersionRequirement,
    /// The form of requirement is no longer accepted.
    DeprecatedVersionRequirement,
}

impl ReqParseError {
    /// The sentence that describes the error, in the words of `semver`.
    pub open spec fn spec_message(self) -> Seq<char> {
        match self {
            ReqParseError::InvalidVersionRequirement => "the given version requirement is invalid"@,
            ReqParseError::OpAlreadySet => "you have already provided an operation, such as =, ~, or ^; only use one"@,
            ReqParseError::InvalidSigil => "the sigil you have written is not correct"@,
            ReqParseError::VersionComponentsMustBeNumeric => "version components must be numeric"@,
            ReqParseError::InvalidIdentifier => "invalid identifier"@,
            ReqParseError::MajorVersionRequired => "at least a major version number is required"@,
            ReqParseError::UnimplementedVersionRequirement =>
                "the given version requirement is not implemented, yet"@,
            ReqParseError::DeprecatedVersionRequirement => "This requirement is deprecated"@,
        }
    }

    /// The sentence with which `semver` describes the error.
    pub fn message(&self) -> (m: &'static str)
        ensures
            m@ == self.spec_message(),
    {
        match self {
            ReqParseError::InvalidVersionRequirement => "the given version requirement is invalid",
            ReqParseError::OpAlreadySet => "you have already provided an operation, such as =, ~, or ^; only use one",
            ReqParseError::InvalidSigil => "the sigil you have written is not correct",
            ReqParseError::VersionComponentsMustBeNumeric => "version components must be numeric",
            ReqParseError::InvalidIdentifier => "invalid identifier",
            ReqParseError::MajorVersionRequired => "at least a major version number is required",
            ReqParseError::UnimplementedVersionRequirement => "the given version requirement is not implemented, yet",
            ReqParseError::DeprecatedVersionRequirement => "This requirement is deprecated",
        }
    }
}

/// What `semver` says of a text as a requirement: `None` where it accepts the
/// text, else its error.
pub uninterp spec fn requirement_syntax(text: Seq<char>) -> Option<ReqParseError>;

/// Whether the requirement that `semver` reads from `text` matches the version:
/// `None` where it refuses the text.
pub uninterp spec fn semver_matches(text: Seq<char>, v: VersionView) -> Option<bool>;

/// Calls `semver::VersionReq::parse` and drops the requirement. The contract
/// names the outcome: acceptance, or which error.
#[verifier::external_body]
fn semver_check(text: &str) -> (e: Option<ReqParseError>)
    ensures
        e == requirement_syntax(text@),
{
    match semver::VersionReq::parse(text) {
        Ok(_) => None,
        Err(semver::ReqParseError::InvalidVersionRequirement) => Some(ReqParseError::InvalidVersionRequirement),
        Err(semver::ReqParseError::OpAlreadySet) => Some(ReqParseError::OpAlreadySet),
        Err(semver::ReqParseError::InvalidSigil) => Some(ReqParseError::InvalidSigil),
        Err(semver::ReqParseError::VersionComponentsMustBeNumeric) => Some(ReqParseError::VersionComponentsMustBeNumeric),
        Err(semver::ReqParseError::InvalidIdentifier) => Some(ReqParseError::InvalidIdentifier),
        Err(semver::ReqParseError::MajorVersionRequired) => Some(ReqParseError::MajorVersionRequired),
        Err(semver::ReqParseError::UnimplementedVersionRequirement) => Some(ReqParseError::UnimplementedVersionRequirement),
        Err(semver::ReqParseError::DeprecatedVersionRequirement(_)) => Some(ReqParseError::DeprecatedVersionRequirement),
    }
}

/// Calls `semver::VersionReq::parse` on the text and then `matches` of the
/// requirement on the version. The contract names the answer, and says that
/// there is none exactly where the parser refuses the text.
#[verifier::external_body]
fn semver_test(text: &str, v: &Version) -> (m: Option<bool>)
    ensures
        m == semver_matches(text@, v@),
        m is None <==> requirement_syntax(text@) is Some,
{
    let ids = |l: &Vec<Identifier>| l.iter().map(|i| match i {
        Identifier::Numeric(n) => semver::Identifier::Numeric(*n),
        Identifier::AlphaNumeric(s) => semver::Identifier::AlphaNumeric(s.clone()),
    }).collect();
    let x = semver::Version { major: v.major, minor: v.minor, patch: v.patch, pre: ids(&v.pre), build: ids(&v.build) };
    match semver::VersionReq::parse(text) {
        Ok(r) => Some(r.matches(&x)),
        Err(_) => None,
    }
}

/// A version requirement. A requirement with an operator holds the text that
/// followed the operator, its bound.
#[derive(Debug)]
pub struct VersionReq {
    op: Option<Operator>,
    bound: String,
}

/// The mathematical value of a [`VersionReq`].
pub enum VersionReqView {
    /// Every version is accepted.
    Any,
    /// The operator and the bound.
    Compare(Operator, Seq<char>),
}

impl View for VersionReq {
    type V = VersionReqView;

    closed spec fn view(&self) -> VersionReqView {
        match self.op {
            None => VersionReqView::Any,
            Some(op) => VersionReqView::Compare(op, self.bound@),
        }
    }
}

/// The text that is handed to `semver` for an operator and a bound.
pub open spec fn semver_text(op: Operator, bound: Seq<char>) -> Seq<char> {
    op.spec_semver_token() + bound
}

/// The text of a requirement in a package reference: the operator and the
/// bound, or nothing for "any version".
pub open spec fn requirement_text(req: VersionReqView) -> Seq<char> {
    match req {
        VersionReqView::Any => Seq::empty(),
        VersionReqView::Compare(op, bound) => op.spec_token() + bound,
    }
}

/// What the answer of the parser to "does the requirement match" comes to: a
/// requirement whose text the parser refuses accepts no version.
pub open spec fn accepted(answer: Option<bool>) -> bool {
    answer == Some(true)
}

/// Whether a requirement accepts a version. A requirement whose text `semver`
/// refuses accepts none.
pub open spec fn req_matches(req: VersionReqView, v: VersionView) -> bool {
    match req {
        VersionReqView::Any => true,
        VersionReqView::Compare(op, bound) => accepted(semver_matches(semver_text(op, bound), v)),
    }
}

/// The requirement `op bound` given what the parser says of its text: the
/// requirement where the parser accepts the text, else the parser's error.
pub open spec fn requirement_given(
    op: Operator,
    bound: Seq<char>,
    refusal: Option<ReqParseError>,
) -> Result<VersionReqView, ReqParseError> {
    match refusal {
        None => Ok(VersionReqView::Compare(op, bound)),
        Some(e) => Err(e),
    }
}

/// What checking an operator and a bound gives: the requirement, or the
/// parser's error.
pub open spec fn checked_requirement(op: Operator, bound: Seq<char>) -> Result<
    VersionReqView,
    ReqParseError,
> {
    requirement_given(op, bound, requirement_syntax(semver_text(op, bound)))
}

/// Tells whether a version is accepted, from the answer of the parser.
pub fn is_accepted(answer: Option<bool>) -> (b: bool)
    ensures
        b == accepted(answer),
{
    match answer {
        Some(m) => m,
        None => false,
    }
}

impl Clone for VersionReq {
    fn clone(&self) -> (copy: VersionReq)
        ensures
            copy@ == self@,
    {
        VersionReq { op: self.op, bound: self.bound.clone() }
    }
}

impl VersionReq {
    /// The requirement that every version meets.
    pub fn any() -> (req: VersionReq)
        ensures
            req@ == VersionReqView::Any,
    {
        VersionReq { op: None, bound: String::new() }
    }

    /// The requirement `op bound`, where the parser accepts it.
    pub fn new(op: Operator, bound: &str) -> (r: Result<VersionReq, ReqParseError>)
        ensures
            match r {
                Ok(req) => checked_requirement(op, bound@) == Ok::<VersionReqView, ReqParseError>(req@),
                Err(e) => checked_requirement(op, bound@) == Err::<VersionReqView, ReqParseError>(e),
            },
    {
        let mut text = String::from_str(op.semver_token());
        text.append(bound);
        VersionReq::given(op, bound, semver_check(text.as_str()))
    }

    /// The requirement `op bound`, given what the parser says of its text:
    /// `None` where it accepts the text, else its error, which is handed on.
    pub fn given(op: Operator, bound: &str, refusal: Option<ReqParseError>) -> (r: Result<
        VersionReq,
        ReqParseError,
    >)
        ensures
            match r {
                Ok(req) => requirement_given(op, bound@, refusal) == Ok::<
                    VersionReqView,
                    ReqParseError,
                >(req@),
                Err(e) => requirement_given(op, bound@, refusal) == Err::<
                    VersionReqView,
                    ReqParseError,
                >(e),
            },
    {
        match refusal {
            None => Ok(VersionReq { op: Some(op), bound: String::from_str(bound) }),
            Some(e) => Err(e),
        }
    }

    /// Tells whether the two requirements are equal: both "any version", or
    /// the same operator with the same bound.
    pub fn equals(&self, other: &VersionReq) -> (b: bool)
        ensures
            b == (self@ == other@),
    {
        match (self.op, other.op) {
            (None, None) => true,
            (Some(a), Some(b)) => a == b && self.bound == other.bound,
            _ => false,
        }
    }

    /// Tells whether every version meets the requirement.
    pub fn is_any(&self) -> (b: bool)
        ensures
            b == (self@ is Any),
    {
        self.op.is_none()
    }

    /// The operator, if the requirement has one.
    pub fn op(&self) -> (op: Option<Operator>)
        ensures
            op == match self@ {
                VersionReqView::Any => None,
                VersionReqView::Compare(o, _) => Some(o),
            },
    {
        self.op
    }

    /// The bound: the text that follows the operator, or nothing for "any
    /// version".
    pub fn bound(&self) -> (b: &str)
        ensures
            b@ == match self@ {
                VersionReqView::Any => Seq::<char>::empty(),
                VersionReqView::Compare(_, bound) => bound,
            },
    {
        match self.op {
            None => {
                proof {
                    reveal_strlit("");
                }
                let b = "";
                assert(b@ =~= Seq::<char>::empty());
                b
            },
            Some(_) => self.bound.as_str(),
        }
    }

    /// Tells whether `version` meets the requirement.
    pub fn matches(&self, version: &Version) -> (b: bool)
        ensures
            b == req_matches(self@, version@),
    {
        match self.op {
            None => true,
            Some(op) => {
                let mut text = String::from_str(op.semver_token());
                text.append(self.bound.as_str());
                is_accepted(semver_test(text.as_str(), version))
            },
        }
    }

    /// The requirement as it is written in a package reference.
    pub fn to_text(&self) -> (s: String)
        ensures
            s@ == requirement_text(self@),
    {
        match self.op {
            None => String::new(),
            Some(op) => {
                let mut text = String::from_str(op.token());
                text.append(self.bound.as_str());
                text
            },
        }
    }
}

} // verus!
