//! The expression tree and its SQL rendering.

use vstd::prelude::*;
use vstd::string::*;

verus! {

/// The keys of a formula object: the two connectives and negation.
#[derive(Debug, Clone, Copy, PartialEq, Eq, Structural)]
pub enum Key {
    And,
    Or,
    Not,
}

/// The SQL text of a key: ` AND `, ` OR ` or ` NOT `, each with a space on
/// either side.
pub open spec fn key_sql(k: Key) -> Seq<char> {
    match k {
        Key::And => seq![' ', 'A', 'N', 'D', ' '],
        Key::Or => seq![' ', 'O', 'R', ' '],
        Key::Not => seq![' ', 'N', 'O', 'T', ' '],
    }
}

impl Key {
    /// The SQL text of this key (see [`key_sql`]).
    pub fn to_string(&self) -> (r: String)
        ensures
            r@ == key_sql(*self),
    {
        match self {
            Key::And => {
                proof {
                    reveal_strlit(" AND ");
                }
                String::from_str(" AND ")
            },
            Key::Or => {
                proof {
                    reveal_strlit(" OR ");
                }
                String::from_str(" OR ")
            },
            Key::Not => {
                proof {
                    reveal_strlit(" NOT ");
                }
                String::from_str(" NOT ")
            },
        }
    }
}

/// The connective of an operator.
#[derive(Debug, Clone, Copy, PartialEq, Eq, Structural)]
pub enum LogicKind {
    And,
    Or,
}

/// The key that names a connective.
pub open spec fn kind_key(k: LogicKind) -> Key {
    match k {
        LogicKind::And => Key::And,
        LogicKind::Or => Key::Or,
    }
}

impl LogicKind {
    /// The key that names this connective (see [`kind_key`]).
    pub fn key(&self) -> (r: Key)
        ensures
            r == kind_key(*self),
    {
        match self {
            LogicKind::And => Key::And,
            LogicKind::Or => Key::Or,
        }
    }
}

/// A boolean formula over field comparisons.
///
/// An operator combines its children with `AND` or `OR` (its `kind`) and
/// may be negated. A leaf holds a
/// dotted field path such as `some.value`, stored verbatim.
#[derive(Debug)]
pub enum Expression {
    Operator { kind: LogicKind, children: Vec<Expression>, negated: bool },
    Leaf(String),
}

/// The position of the first `.` in `p`, or `p.len()` when there is none.
pub open spec fn dot_pos(p: Seq<char>) -> nat
    decreases p.len(),
{
    if p.len() == 0 || p[0] == '.' {
        0
    } else {
        1 + dot_pos(p.drop_first())
    }
}

/// The SQL text of a leaf: the path split at its first `.` into `lhs` and
/// `rhs`, written `lhs = rhs`; a path without a dot is all `lhs`, with an
/// empty `rhs`.
pub open spec fn leaf_sql(p: Seq<char>) -> Seq<char> {
    let d = dot_pos(p);
    let rhs = if d < p.len() { p.skip(d as int + 1) } else { Seq::empty() };
    p.take(d as int) + seq![' ', '=', ' '] + rhs
}

/// The SQL text of a node: a leaf as [`leaf_sql`]; an operator as its
/// children's texts joined by the operator's [`key_sql`], wrapped in `( `
/// and ` )`, and preceded by ` NOT ` when negated.
pub open spec fn sql_of(e: Expression) -> Seq<char>
    decreases e, 1nat, 0nat,
{
    match e {
        Expression::Leaf(p) => leaf_sql(p@),
        Expression::Operator { kind, children, negated } => {
            let prefix = if negated { key_sql(Key::Not) } else { Seq::empty() };
            prefix + seq!['(', ' '] + sql_join(e, children.len() as nat) + seq![' ', ')']
        },
    }
}

/// The texts of the first `n` children of operator `e`, joined by the
/// operator's separator; empty for a leaf or for `n == 0`.
pub open spec fn sql_join(e: Expression, n: nat) -> Seq<char>
    decreases e, 0nat, n,
{
    match e {
        Expression::Leaf(_) => Seq::empty(),
        Expression::Operator { kind, children, negated } => {
            if n == 0 || n > children.len() {
                Seq::empty()
            } else if n == 1 {
                sql_of(children[0])
            } else {
                sql_join(e, (n - 1) as nat) + key_sql(kind_key(kind)) + sql_of(children[n - 1])
            }
        },
    }
}

/// Index of the first `.` in `s`, or its length when there is none.
fn find_dot(s: &str) -> (r: usize)
    ensures
        r == dot_pos(s@),
        r <= s@.len(),
{
    let n = s.unicode_len();
    let mut i: usize = 0;
    while i < n && s.get_char(i) != '.'
        invariant
            n == s@.len(),
            i <= n,
            forall|j: int| 0 <= j < i ==> s@[j] != '.',
        decreases n - i,
    {
        i = i + 1;
    }
    proof {
        lemma_dot_pos(s@, i as int);
    }
    i
}

/// `dot_pos` is the first index holding a `.`.
proof fn lemma_dot_pos(p: Seq<char>, i: int)
    requires
        0 <= i <= p.len(),
        forall|j: int| 0 <= j < i ==> p[j] != '.',
        i == p.len() || p[i] == '.',
    ensures
        dot_pos(p) == i,
    decreases p.len(),
{
    if p.len() > 0 && p[0] != '.' {
        assert forall|j: int| 0 <= j < i - 1 implies p.drop_first()[j] != '.' by {
            assert(p[j + 1] != '.');
        }
        lemma_dot_pos(p.drop_first(), i - 1);
    }
}

/// A leaf whose path holds no `.` renders as the path followed by ` = `.
pub proof fn law_leaf_without_dot(p: String)
    requires
        forall|i: int| 0 <= i < p@.len() ==> p@[i] != '.',
    ensures
        sql_of(Expression::Leaf(p)) == p@ + seq![' ', '=', ' '],
{
    lemma_dot_pos(p@, p@.len() as int);
    assert(p@.take(p@.len() as int) =~= p@);
    assert(sql_of(Expression::Leaf(p)) =~= p@ + seq![' ', '=', ' ']);
}

/// A leaf `lhs.rhs`, where `lhs` holds no `.`, renders as `lhs = rhs`: the
/// path is split at its first dot only.
pub proof fn law_leaf_split(p: String, lhs: Seq<char>, rhs: Seq<char>)
    requires
        p@ == lhs + seq!['.'] + rhs,
        forall|i: int| 0 <= i < lhs.len() ==> lhs[i] != '.',
    ensures
        sql_of(Expression::Leaf(p)) == lhs + seq![' ', '=', ' '] + rhs,
{
    lemma_dot_pos(p@, lhs.len() as int);
    assert(p@.take(lhs.len() as int) =~= lhs);
    assert(p@.skip(lhs.len() as int + 1) =~= rhs);
}

/// An operator without children renders as `(  )`.
pub proof fn law_empty_operator(kind: LogicKind, children: Vec<Expression>)
    requires
        children.len() == 0,
    ensures
        sql_of(Expression::Operator { kind, children, negated: false }) == seq![
            '(',
            ' ',
            ' ',
            ')',
        ],
{
    assert(sql_of(Expression::Operator { kind, children, negated: false }) =~= seq![
        '(',
        ' ',
        ' ',
        ')',
    ]);
}

/// The children's joined text does not depend on the negation flag.
proof fn lemma_join_ignores_negation(kind: LogicKind, children: Vec<Expression>, n: nat)
    ensures
        sql_join(Expression::Operator { kind, children, negated: true }, n) == sql_join(
            Expression::Operator { kind, children, negated: false },
            n,
        ),
    decreases n,
{
    if n > 1 {
        lemma_join_ignores_negation(kind, children, (n - 1) as nat);
    }
}

/// A negated operator renders as ` NOT ` followed by the same operator
/// without negation.
pub proof fn law_negation(kind: LogicKind, children: Vec<Expression>)
    ensures
        sql_of(Expression::Operator { kind, children, negated: true }) == key_sql(Key::Not)
            + sql_of(Expression::Operator { kind, children, negated: false }),
{
    lemma_join_ignores_negation(kind, children, children.len() as nat);
    assert(sql_of(Expression::Operator { kind, children, negated: true }) =~= key_sql(Key::Not)
        + sql_of(Expression::Operator { kind, children, negated: false }));
}

impl Expression {
    /// Renders this formula as SQL text (see [`sql_of`]).
    pub fn to_sql(&self) -> (r: String)
        ensures
            r@ == sql_of(*self),
        decreases self,
    {
        match self {
            Expression::Leaf(path) => {
                let s = path.as_str();
                let d = find_dot(s);
                let n = s.unicode_len();
                let mut out = String::from_str(s.substring_char(0, d));
                proof {
                    reveal_strlit(" = ");
                }
                out.append(" = ");
                if d < n {
                    out.append(s.substring_char(d + 1, n));
                }
                assert(out@ =~= sql_of(*self));
                out
            },
            Expression::Operator { kind, children, negated } => {
                let mut out = if *negated {
                    Key::Not.to_string()
                } else {
                    String::new()
                };
                proof {
                    reveal_strlit("( ");
                    reveal_strlit(" )");
                }
                out.append("( ");
                let ghost start = out@;
                let sep = kind.key().to_string();
                let mut i: usize = 0;
                while i < children.len()
                    invariant
                        i <= children.len(),
                        *self == (Expression::Operator {
                            kind: *kind,
                            children: *children,
                            negated: *negated,
                        }),
                        sep@ == key_sql(kind_key(*kind)),
                        out@ == start + sql_join(*self, i as nat),
                    decreases children.len() - i,
                {
                    if i > 0 {
                        out.append(sep.as_str());
                    }
                    proof {
                        assert(decreases_to!(*self => (*self)->children));
                        assert(decreases_to!(*children => children[i as int]));
                        assert(decreases_to!(*self => children[i as int]));
                    }
                    let part = children[i].to_sql();
                    out.append(part.as_str());
                    assert(part@ == sql_of(children@[i as int]));
                    assert(out@ =~= start + sql_join(*self, (i + 1) as nat));
                    i = i + 1;
                }
                out.append(" )");
                assert(out@ =~= sql_of(*self));
                out
            },
        }
    }
}

} // verus!
