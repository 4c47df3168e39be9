//! The statement language of policy patches: its grammar and its parser.
//!
//! A statement is a line of blank-separated tokens. The first token is the
//! keyword; what may follow depends on it:
//!
//! ```text
//! allow|deny|auditallow|dontaudit <source> <target> <class> <permission-set>
//! type|typeattribute <name> <attribute> ...
//! permissive|enforce|attribute <name>
//! ```
//!
//! A permission set is one name, or names between `{` and `}`. Names are made
//! of letters, digits and underscores. Nothing here asks whether a name is
//! declared: the policy declares what a statement mentions.
use crate::bytes::{bytes_eq, copy_range, pieces, rows, split, Delim};
use vstd::prelude::*;
use vstd::string::StringSliceAdditionalSpecFns;

verus! {

#[derive(Clone, Copy, PartialEq, Eq, Structural, Debug)]
pub enum Keyword {
    Allow,
    Deny,
    AuditAllow,
    DontAudit,
    Type,
    TypeAttribute,
    Permissive,
    Enforce,
    Attribute,
}

/// What follows a keyword.
#[derive(Clone, Copy, PartialEq, Eq, Structural, Debug)]
pub enum Shape {
    /// Source, target, class and a permission set.
    Rule,
    /// A name and one or more attributes.
    Listing,
    /// A single name.
    Single,
}

/// Why a policy operation failed.
#[derive(Clone, Copy, PartialEq, Eq, Structural, Debug)]
pub enum PolicyError {
    /// The statement at position `index` of the patch is malformed.
    ParseError { index: usize },
    /// The kernel refused the statement at position `index` of the patch.
    KernelPolicyError { index: usize },
    /// The kernel offers no live patching.
    NotSupported,
}

/// A parsed statement.
///
/// For a rule, `subjects` holds source, target and class and `members` the
/// permissions. For `type` and `typeattribute`, `subjects` holds the name and
/// `members` the attributes. For the others `subjects` holds the one name and
/// `members` is empty.
#[derive(Clone, Debug)]
pub struct Statement {
    pub keyword: Keyword,
    pub subjects: Vec<Vec<u8>>,
    pub members: Vec<Vec<u8>>,
}

pub struct StatementModel {
    pub keyword: Keyword,
    pub subjects: Seq<Seq<u8>>,
    pub members: Seq<Seq<u8>>,
}

impl View for Statement {
    type V = StatementModel;

    open spec fn view(&self) -> StatementModel {
        StatementModel {
            keyword: self.keyword,
            subjects: rows(self.subjects@),
            members: rows(self.members@),
        }
    }
}

pub open spec fn shape_of(k: Keyword) -> Shape {
    match k {
        Keyword::Allow | Keyword::Deny | Keyword::AuditAllow | Keyword::DontAudit => Shape::Rule,
        Keyword::Type | Keyword::TypeAttribute => Shape::Listing,
        Keyword::Permissive | Keyword::Enforce | Keyword::Attribute => Shape::Single,
    }
}

/// The keyword that a token spells, if any. Keywords are case-sensitive.
pub open spec fn keyword_of(t: Seq<u8>) -> Option<Keyword> {
    if t == "allow".spec_bytes() {
        Some(Keyword::Allow)
    } else if t == "deny".spec_bytes() {
        Some(Keyword::Deny)
    } else if t == "auditallow".spec_bytes() {
        Some(Keyword::AuditAllow)
    } else if t == "dontaudit".spec_bytes() {
        Some(Keyword::DontAudit)
    } else if t == "type".spec_bytes() {
        Some(Keyword::Type)
    } else if t == "typeattribute".spec_bytes() {
        Some(Keyword::TypeAttribute)
    } else if t == "permissive".spec_bytes() {
        Some(Keyword::Permissive)
    } else if t == "enforce".spec_bytes() {
        Some(Keyword::Enforce)
    } else if t == "attribute".spec_bytes() {
        Some(Keyword::Attribute)
    } else {
        None
    }
}

/// A letter, a digit or an underscore.
pub open spec fn name_byte(b: u8) -> bool {
    (48 <= b && b <= 57) || (65 <= b && b <= 90) || (97 <= b && b <= 122) || b == 95
}

pub open spec fn is_name(t: Seq<u8>) -> bool {
    t.len() > 0 && forall|k: int| 0 <= k < t.len() ==> name_byte(#[trigger] t[k])
}

pub open spec fn all_names(ts: Seq<Seq<u8>>) -> bool {
    forall|i: int| 0 <= i < ts.len() ==> is_name(#[trigger] ts[i])
}

/// The token `{`.
pub open spec fn opens_set(t: Seq<u8>) -> bool {
    t.len() == 1 && t[0] == 123
}

/// The token `}`.
pub open spec fn closes_set(t: Seq<u8>) -> bool {
    t.len() == 1 && t[0] == 125
}

/// The permissions that the tokens of a permission set name: the one name, or
/// the names between the braces, of which there is at least one.
pub open spec fn set_members(set: Seq<Seq<u8>>) -> Option<Seq<Seq<u8>>> {
    if set.len() == 1 {
        if is_name(set[0]) {
            Some(set)
        } else {
            None
        }
    } else if set.len() >= 3 && opens_set(set[0]) && closes_set(set[set.len() - 1]) && all_names(
        set.subrange(1, set.len() - 1),
    ) {
        Some(set.subrange(1, set.len() - 1))
    } else {
        None
    }
}

/// The statement that a line's tokens spell, if they spell one.
pub open spec fn parse_tokens(ts: Seq<Seq<u8>>) -> Option<StatementModel> {
    if ts.len() == 0 {
        None
    } else {
        match keyword_of(ts[0]) {
            None => None,
            Some(keyword) => match shape_of(keyword) {
                Shape::Rule => if ts.len() >= 5 && all_names(ts.subrange(1, 4)) {
                    match set_members(ts.subrange(4, ts.len() as int)) {
                        Some(members) => Some(
                            StatementModel { keyword, subjects: ts.subrange(1, 4), members },
                        ),
                        None => None,
                    }
                } else {
                    None
                },
                Shape::Listing => if ts.len() >= 3 && all_names(ts.subrange(1, ts.len() as int)) {
                    Some(
                        StatementModel {
                            keyword,
                            subjects: ts.subrange(1, 2),
                            members: ts.subrange(2, ts.len() as int),
                        },
                    )
                } else {
                    None
                },
                Shape::Single => if ts.len() == 2 && is_name(ts[1]) {
                    Some(
                        StatementModel {
                            keyword,
                            subjects: ts.subrange(1, 2),
                            members: Seq::empty(),
                        },
                    )
                } else {
                    None
                },
            },
        }
    }
}

/// The statement that a line of text spells, if it spells one.
pub open spec fn parse(text: Seq<u8>) -> Option<StatementModel> {
    parse_tokens(pieces(text, Delim::Blank))
}

pub fn read_keyword(t: &[u8]) -> (k: Option<Keyword>)
    ensures
        k == keyword_of(t@),
{
    if bytes_eq(t, "allow".as_bytes()) {
        Some(Keyword::Allow)
    } else if bytes_eq(t, "deny".as_bytes()) {
        Some(Keyword::Deny)
    } else if bytes_eq(t, "auditallow".as_bytes()) {
        Some(Keyword::AuditAllow)
    } else if bytes_eq(t, "dontaudit".as_bytes()) {
        Some(Keyword::DontAudit)
    } else if bytes_eq(t, "type".as_bytes()) {
        Some(Keyword::Type)
    } else if bytes_eq(t, "typeattribute".as_bytes()) {
        Some(Keyword::TypeAttribute)
    } else if bytes_eq(t, "permissive".as_bytes()) {
        Some(Keyword::Permissive)
    } else if bytes_eq(t, "enforce".as_bytes()) {
        Some(Keyword::Enforce)
    } else if bytes_eq(t, "attribute".as_bytes()) {
        Some(Keyword::Attribute)
    } else {
        None
    }
}

pub fn shape(k: Keyword) -> (s: Shape)
    ensures
        s == shape_of(k),
{
    match k {
        Keyword::Allow | Keyword::Deny | Keyword::AuditAllow | Keyword::DontAudit => Shape::Rule,
        Keyword::Type | Keyword::TypeAttribute => Shape::Listing,
        Keyword::Permissive | Keyword::Enforce | Keyword::Attribute => Shape::Single,
    }
}

pub fn check_name(t: &[u8]) -> (ok: bool)
    ensures
        ok == is_name(t@),
{
    if t.len() == 0 {
        return false;
    }
    let mut i: usize = 0;
    while i < t.len()
        invariant
            i <= t@.len(),
            forall|k: int| 0 <= k < i ==> name_byte(#[trigger] t@[k]),
        decreases t.len() - i,
    {
        let b: u8 = t[i];
        if !((48 <= b && b <= 57) || (65 <= b && b <= 90) || (97 <= b && b <= 122) || b == 95) {
            return false;
        }
        i += 1;
    }
    true
}

/// Whether the tokens from `from` up to `to` are all names.
fn check_names(ts: &Vec<Vec<u8>>, from: usize, to: usize) -> (ok: bool)
    requires
        from <= to <= ts@.len(),
    ensures
        ok == all_names(rows(ts@).subrange(from as int, to as int)),
{
    let ghost part = rows(ts@).subrange(from as int, to as int);
    let mut i: usize = from;
    while i < to
        invariant
            from <= i <= to <= ts@.len(),
            part == rows(ts@).subrange(from as int, to as int),
            forall|k: int| 0 <= k < i - from ==> is_name(#[trigger] part[k]),
        decreases to - i,
    {
        if !check_name(ts[i].as_slice()) {
            assert(part[i - from] == ts@[i as int]@);
            return false;
        }
        assert(part[i - from] == ts@[i as int]@);
        i += 1;
    }
    true
}

/// Copies of the tokens from `from` up to `to`.
fn copy_rows(ts: &Vec<Vec<u8>>, from: usize, to: usize) -> (out: Vec<Vec<u8>>)
    requires
        from <= to <= ts@.len(),
    ensures
        rows(out@) == rows(ts@).subrange(from as int, to as int),
{
    let mut out: Vec<Vec<u8>> = Vec::new();
    let mut i: usize = from;
    while i < to
        invariant
            from <= i <= to <= ts@.len(),
            rows(out@) == rows(ts@).subrange(from as int, i as int),
        decreases to - i,
    {
        let row = copy_range(ts[i].as_slice(), 0, ts[i].len());
        assert(row@ =~= ts@[i as int]@);
        let ghost before = rows(out@);
        out.push(row);
        assert(rows(out@) =~= before.push(row@));
        assert(rows(ts@).subrange(from as int, i + 1) =~= rows(ts@).subrange(
            from as int,
            i as int,
        ).push(ts@[i as int]@));
        i += 1;
    }
    out
}

/// Reads one statement without touching any policy.
///
/// Succeeds exactly on the lines that the grammar accepts, with the statement
/// that the line spells. Any other line is a parse error at position 0.
pub fn check(text: &[u8]) -> (r: Result<Statement, PolicyError>)
    ensures
        match parse(text@) {
            Some(m) => r matches Ok(s) && s@ == m,
            None => r == Err::<Statement, PolicyError>(PolicyError::ParseError { index: 0 }),
        },
{
    let ts = split(text, Delim::Blank);
    let bad = Err(PolicyError::ParseError { index: 0 });
    let n: usize = ts.len();
    let ghost toks = rows(ts@);
    if n == 0 {
        return bad;
    }
    assert(toks[0] == ts@[0]@);
    let keyword = match read_keyword(ts[0].as_slice()) {
        None => {
            return bad;
        },
        Some(k) => k,
    };
    match shape(keyword) {
        Shape::Rule => {
            if n < 5 || !check_names(&ts, 1, 4) {
                return bad;
            }
            let ghost set = toks.subrange(4, n as int);
            assert(set[0] == ts@[4]@);
            assert(set[set.len() - 1] == ts@[n - 1]@);
            if n == 5 {
                if !check_name(ts[4].as_slice()) {
                    return bad;
                }
                let subjects = copy_rows(&ts, 1, 4);
                let members = copy_rows(&ts, 4, 5);
                Ok(Statement { keyword, subjects, members })
            } else {
                if n < 7 {
                    return bad;
                }
                let first = &ts[4];
                let last = &ts[n - 1];
                if !(first.len() == 1 && first[0] == 123 && last.len() == 1 && last[0] == 125) {
                    return bad;
                }
                assert(set.subrange(1, set.len() - 1) =~= toks.subrange(5, n - 1));
                if !check_names(&ts, 5, n - 1) {
                    return bad;
                }
                let subjects = copy_rows(&ts, 1, 4);
                let members = copy_rows(&ts, 5, n - 1);
                Ok(Statement { keyword, subjects, members })
            }
        },
        Shape::Listing => {
            if n < 3 || !check_names(&ts, 1, n) {
                return bad;
            }
            let subjects = copy_rows(&ts, 1, 2);
            let members = copy_rows(&ts, 2, n);
            Ok(Statement { keyword, subjects, members })
        },
        Shape::Single => {
            if n != 2 {
                return bad;
            }
            assert(toks[1] == ts@[1]@);
            if !check_name(ts[1].as_slice()) {
                return bad;
            }
            let subjects = copy_rows(&ts, 1, 2);
            let members: Vec<Vec<u8>> = Vec::new();
            assert(rows(members@) =~= Seq::<Seq<u8>>::empty());
            Ok(Statement { keyword, subjects, members })
        },
    }
}

} // verus!
