//! Package references: a name, optionally followed by a comparison operator
//! and a bound, as in `glibc` or `linux>=5.5.3`.

use vstd::prelude::*;
use vstd::string::{StrSliceExecFns, StringExecFns};
use crate::requirement::{
    checked_requirement, requirement_text, Operator, ReqParseError, VersionReq, VersionReqView,
};
use crate::text::{
    chars_of, find, first_occurrence, is_first_occurrence, lemma_first_occurrence_is, occurs,
    occurs_at,
};

verus! {

/// A package name with the requirement on its version.
pub type Query = (String, VersionReq);

/// The dependencies of a package, where it has any.
pub type Dependencies = Option<Vec<Query>>;

/// The mathematical value of a [`Query`].
pub type QueryView = (Seq<char>, VersionReqView);

/// The operator at which a reference is cut, with its position: the first
/// operator, in the order `==`, `>=`, `<=`, `>`, `<`, that stands in the text,
/// at its leftmost position.
pub open spec fn cut_point(text: Seq<char>) -> Option<(Operator, int)> {
    if first_occurrence(text, Operator::Equal.spec_token()) is Some {
        Some((Operator::Equal, first_occurrence(text, Operator::Equal.spec_token())->0))
    } else if first_occurrence(text, Operator::GreaterEq.spec_token()) is Some {
        Some((Operator::GreaterEq, first_occurrence(text, Operator::GreaterEq.spec_token())->0))
    } else if first_occurrence(text, Operator::LessEq.spec_token()) is Some {
        Some((Operator::LessEq, first_occurrence(text, Operator::LessEq.spec_token())->0))
    } else if first_occurrence(text, Operator::Greater.spec_token()) is Some {
        Some((Operator::Greater, first_occurrence(text, Operator::Greater.spec_token())->0))
    } else if first_occurrence(text, Operator::Less.spec_token()) is Some {
        Some((Operator::Less, first_occurrence(text, Operator::Less.spec_token())->0))
    } else {
        None
    }
}

/// What a package reference means. Without an operator the whole text is the
/// name and any version will do. With one, the name is what stands before the
/// operator, and the operator with what follows it is the requirement, which
/// the version parser has to accept.
pub open spec fn parse_query(text: Seq<char>) -> Result<QueryView, ReqParseError> {
    match cut_point(text) {
        None => Ok((text, VersionReqView::Any)),
        Some((op, i)) => match checked_requirement(
            op,
            text.subrange(i + op.spec_token().len(), text.len() as int),
        ) {
            Ok(req) => Ok((text.subrange(0, i), req)),
            Err(e) => Err(e),
        },
    }
}

/// The text of a dependency: the name directly followed by the requirement.
pub open spec fn query_text(q: QueryView) -> Seq<char> {
    q.0 + requirement_text(q.1)
}

/// The value of a parsing result.
pub open spec fn parsed_view(r: Result<Query, ReqParseError>) -> Result<QueryView, ReqParseError> {
    match r {
        Ok(q) => Ok((q.0@, q.1@)),
        Err(e) => Err(e),
    }
}

/// Looks for one operator in a reference.
fn find_operator(chars: &Vec<char>, op: Operator) -> (r: Option<usize>)
    ensures
        r matches Some(i) ==> first_occurrence(chars@, op.spec_token()) == Some(i as int),
        r is None ==> first_occurrence(chars@, op.spec_token()) is None,
{
    let pat = chars_of(op.token());
    find(chars, &pat)
}

/// Finds the operator at which a reference is cut.
fn find_cut(chars: &Vec<char>) -> (r: Option<(Operator, usize)>)
    ensures
        match r {
            Some((op, i)) => cut_point(chars@) == Some((op, i as int)) && is_first_occurrence(
                chars@,
                op.spec_token(),
                i as int,
            ),
            None => cut_point(chars@) is None,
        },
{
    if let Some(i) = find_operator(chars, Operator::Equal) {
        proof {
            lemma_first_is_first(chars@, Operator::Equal.spec_token());
        }
        return Some((Operator::Equal, i));
    }
    if let Some(i) = find_operator(chars, Operator::GreaterEq) {
        proof {
            lemma_first_is_first(chars@, Operator::GreaterEq.spec_token());
        }
        return Some((Operator::GreaterEq, i));
    }
    if let Some(i) = find_operator(chars, Operator::LessEq) {
        proof {
            lemma_first_is_first(chars@, Operator::LessEq.spec_token());
        }
        return Some((Operator::LessEq, i));
    }
    if let Some(i) = find_operator(chars, Operator::Greater) {
        proof {
            lemma_first_is_first(chars@, Operator::Greater.spec_token());
        }
        return Some((Operator::Greater, i));
    }
    match find_operator(chars, Operator::Less) {
        Some(i) => {
            proof {
                lemma_first_is_first(chars@, Operator::Less.spec_token());
            }
            Some((Operator::Less, i))
        },
        None => None,
    }
}

/// What `first_occurrence` gives is a leftmost position.
pub proof fn lemma_first_is_first(text: Seq<char>, pat: Seq<char>)
    requires
        first_occurrence(text, pat) is Some,
    ensures
        is_first_occurrence(text, pat, first_occurrence(text, pat)->0),
{
    let i = choose|i: int| occurs_at(text, pat, i);
    lemma_has_first(text, pat, i);
}

/// Where a pattern stands at `i`, it has a leftmost position.
proof fn lemma_has_first(text: Seq<char>, pat: Seq<char>, i: int)
    requires
        occurs_at(text, pat, i),
    ensures
        exists|j: int| is_first_occurrence(text, pat, j),
    decreases i,
{
    if forall|j: int| 0 <= j < i ==> !occurs_at(text, pat, j) {
        assert(is_first_occurrence(text, pat, i));
    } else {
        let j = choose|j: int| 0 <= j < i && occurs_at(text, pat, j);
        lemma_has_first(text, pat, j);
    }
}

/// Reads a package reference: `name`, or `name`, an operator and a bound.
///
/// The operators are looked for in the order `==`, `>=`, `<=`, `>`, `<`, so
/// that `>=` is found before `>`. The reference is cut at the leftmost position
/// of the first operator found. Fails with the parser's error where there is an
/// operator and the parser refuses the requirement.
pub fn parse_pkg_str_info(text: &str) -> (r: Result<Query, ReqParseError>)
    ensures
        parsed_view(r) == parse_query(text@),
{
    let chars = chars_of(text);
    match find_cut(&chars) {
        None => Ok((String::from_str(text), VersionReq::any())),
        Some((op, i)) => {
            let n = chars.len();
            let width = op.token().unicode_len();
            let name = text.substring_char(0, i);
            let bound = text.substring_char(i + width, n);
            match VersionReq::new(op, bound) {
                Ok(req) => Ok((String::from_str(name), req)),
                Err(e) => Err(e),
            }
        },
    }
}

/// Writes a dependency as one text: the name directly followed by the
/// requirement.
pub fn query_to_text(name: &str, req: &VersionReq) -> (s: String)
    ensures
        s@ == query_text((name@, req@)),
{
    let mut s = String::from_str(name);
    let r = req.to_text();
    s.append(r.as_str());
    s
}

/// A character that is part of an operator.
pub open spec fn operator_char(c: char) -> bool {
    c == '=' || c == '<' || c == '>'
}

/// No character of the text is part of an operator.
pub open spec fn operator_free(text: Seq<char>) -> bool {
    forall|k: int| 0 <= k < text.len() ==> !operator_char(#[trigger] text[k])
}

/// Writing is the inverse of reading: a reference that reads as a query is the
/// text of that query.
pub proof fn lemma_read_then_write(text: Seq<char>)
    ensures
        parse_query(text) matches Ok(q) ==> query_text(q) == text,
{
    match cut_point(text) {
        None => {
            assert(text + Seq::<char>::empty() =~= text);
        },
        Some((op, i)) => {
            let token = op.spec_token();
            lemma_first_is_first(text, token);
            assert(first_occurrence(text, token) == Some(i));
            assert(occurs_at(text, token, i));
            let bound = text.subrange(i + token.len(), text.len() as int);
            if checked_requirement(op, bound) is Ok {
                assert forall|k: int| 0 <= k < token.len() implies text[i + k] == token[k] by {
                    assert(text[i + k] == token[k]);
                }
                assert(text.subrange(0, i) + (token + bound) =~= text);
            }
        },
    }
}

/// In a text made of a name, an operator and a bound, where neither the name
/// nor the bound holds a character of an operator, such characters stand in the
/// operator only.
proof fn lemma_operator_chars(name: Seq<char>, token: Seq<char>, bound: Seq<char>, k: int)
    requires
        operator_free(name),
        operator_free(bound),
        0 <= k < (name + token + bound).len(),
        operator_char((name + token + bound)[k]),
    ensures
        name.len() <= k < name.len() + token.len(),
{
    let text = name + token + bound;
    let p = name.len() as int;
    if k < p {
        assert(text[k] == name[k]);
    } else if k >= p + token.len() {
        assert(text[k] == bound[k - p - token.len()]);
    }
}

/// In such a text an operator other than the one it was made with stands only
/// where it is a part of that one, and is then looked for later.
proof fn lemma_other_operator(
    name: Seq<char>,
    op: Operator,
    bound: Seq<char>,
    other: Operator,
    j: int,
)
    requires
        operator_free(name),
        operator_free(bound),
        occurs_at(name + op.spec_token() + bound, other.spec_token(), j),
        other != op,
    ensures
        later_in_order(other, op),
{
    let token = op.spec_token();
    let t = other.spec_token();
    let text = name + token + bound;
    let p = name.len() as int;
    assert(t[0] == text[j + 0]);
    assert(operator_char(t[0]));
    lemma_operator_chars(name, token, bound, j);
    if t.len() == 2 {
        assert(t[1] == text[j + 1]);
        assert(operator_char(t[1]));
        lemma_operator_chars(name, token, bound, j + 1);
        assert(j == p);
        assert(token.len() == 2);
        assert(text[p] == token[0]);
        assert(text[p + 1] == token[1]);
    } else {
        assert(text[j] == token[j - p]);
    }
}

/// In such a text the operator it was made with stands first right after the
/// name.
proof fn lemma_operator_position(name: Seq<char>, op: Operator, bound: Seq<char>)
    requires
        operator_free(name),
        operator_free(bound),
    ensures
        first_occurrence(name + op.spec_token() + bound, op.spec_token()) == Some(
            name.len() as int,
        ),
{
    let token = op.spec_token();
    let text = name + token + bound;
    let p = name.len() as int;
    assert forall|k: int| 0 <= k < token.len() implies text[p + k] == #[trigger] token[k] by {}
    assert(occurs_at(text, token, p));
    assert forall|j: int| 0 <= j < p implies !occurs_at(text, token, j) by {
        if occurs_at(text, token, j) {
            assert(text[j + 0] == token[0]);
            assert(operator_char(token[0]));
            lemma_operator_chars(name, token, bound, j);
        }
    }
    lemma_first_occurrence_is(text, token, p);
}

/// In such a text the reference is cut at the operator it was made with.
proof fn lemma_cut_at_operator(name: Seq<char>, op: Operator, bound: Seq<char>)
    requires
        operator_free(name),
        operator_free(bound),
    ensures
        cut_point(name + op.spec_token() + bound) == Some((op, name.len() as int)),
{
    lemma_operator_position(name, op, bound);
    if rank(Operator::Equal) < rank(op) {
        lemma_not_before(name, op, bound, Operator::Equal);
    }
    if rank(Operator::GreaterEq) < rank(op) {
        lemma_not_before(name, op, bound, Operator::GreaterEq);
    }
    if rank(Operator::LessEq) < rank(op) {
        lemma_not_before(name, op, bound, Operator::LessEq);
    }
    if rank(Operator::Greater) < rank(op) {
        lemma_not_before(name, op, bound, Operator::Greater);
    }
}

/// In such a text no operator that is looked for earlier stands anywhere.
proof fn lemma_not_before(name: Seq<char>, op: Operator, bound: Seq<char>, other: Operator)
    requires
        operator_free(name),
        operator_free(bound),
        rank(other) < rank(op),
    ensures
        first_occurrence(name + op.spec_token() + bound, other.spec_token()) is None,
{
    let text = name + op.spec_token() + bound;
    if occurs(text, other.spec_token()) {
        let j = choose|j: int| occurs_at(text, other.spec_token(), j);
        lemma_other_operator(name, op, bound, other, j);
    }
}

/// `a` is looked for after `b`.
pub open spec fn later_in_order(a: Operator, b: Operator) -> bool {
    rank(a) > rank(b)
}

/// The place of an operator in the order of the search.
pub open spec fn rank(op: Operator) -> int {
    match op {
        Operator::Equal => 0,
        Operator::GreaterEq => 1,
        Operator::LessEq => 2,
        Operator::Greater => 3,
        Operator::Less => 4,
    }
}

/// A text without characters of an operator holds no operator.
proof fn lemma_token_absent(text: Seq<char>, op: Operator)
    requires
        operator_free(text),
    ensures
        first_occurrence(text, op.spec_token()) is None,
{
    let t = op.spec_token();
    if occurs(text, t) {
        let j = choose|j: int| occurs_at(text, t, j);
        assert(text[j + 0] == t[0]);
        assert(operator_char(t[0]));
    }
}

/// A text without characters of an operator is not cut.
proof fn lemma_no_cut(text: Seq<char>)
    requires
        operator_free(text),
    ensures
        cut_point(text) is None,
{
    lemma_token_absent(text, Operator::Equal);
    lemma_token_absent(text, Operator::GreaterEq);
    lemma_token_absent(text, Operator::LessEq);
    lemma_token_absent(text, Operator::Greater);
    lemma_token_absent(text, Operator::Less);
}

/// Reading is the inverse of writing: for a name and a bound without
/// characters of an operator, the text of a query reads as that query, provided
/// the parser accepts the requirement, and else fails with the parser's error.
pub proof fn lemma_write_then_read(name: Seq<char>, req: VersionReqView)
    requires
        operator_free(name),
        req matches VersionReqView::Compare(_, bound) ==> operator_free(bound),
    ensures
        parse_query(query_text((name, req))) == match req {
            VersionReqView::Any => Ok::<QueryView, ReqParseError>((name, req)),
            VersionReqView::Compare(op, bound) => match checked_requirement(op, bound) {
                Ok(r) => Ok::<QueryView, ReqParseError>((name, r)),
                Err(e) => Err::<QueryView, ReqParseError>(e),
            },
        },
{
    match req {
        VersionReqView::Any => {
            assert(query_text((name, req)) =~= name);
            lemma_no_cut(name);
        },
        VersionReqView::Compare(op, bound) => {
            let token = op.spec_token();
            let text = query_text((name, req));
            assert(text =~= name + token + bound);
            lemma_cut_at_operator(name, op, bound);
            let p = name.len() as int;
            assert(text.subrange(0, p) =~= name);
            assert(text.subrange(p + token.len(), text.len() as int) =~= bound);
        },
    }
}

} // verus!
