//! Construction of an expression tree from a decoded JSON value.

use vstd::prelude::*;
use vstd::string::*;
use crate::expr::{Expression, Key, LogicKind, kind_key, sql_of, sql_join};
use crate::json::{JsonValue, is_first, has_key, text_eq, find_key};

verus! {

/// Why a JSON value is not a formula.
#[derive(Debug, Clone, Copy, PartialEq, Eq, Structural)]
pub enum ParseError {
    /// The text is not JSON.
    SyntaxError,
    /// An object holds a key other than `and`, `or` and `not`.
    UnknownKey,
    /// A recognised key holds a value of the wrong kind.
    TypeMismatch,
    /// An object holds neither `and` nor `or`.
    MissingOperator,
    /// An object holds both `and` and `or`.
    ConflictingOperator,
    /// A formula is a boolean, an array, a number or null.
    UnexpectedShape,
}

/// The object key `and`.
pub open spec fn and_name() -> Seq<char> {
    seq!['a', 'n', 'd']
}

/// The object key `or`.
pub open spec fn or_name() -> Seq<char> {
    seq!['o', 'r']
}

/// The object key `not`.
pub open spec fn not_name() -> Seq<char> {
    seq!['n', 'o', 't']
}

/// The key that an object key names: `and`, `or` and `not`, in lower case
/// only.
pub open spec fn key_from_name(s: Seq<char>) -> Option<Key> {
    if s == and_name() {
        Some(Key::And)
    } else if s == or_name() {
        Some(Key::Or)
    } else if s == not_name() {
        Some(Key::Not)
    } else {
        None
    }
}

/// The negation flag that the value of `not` gives: a boolean, or the text
/// `true` or `false`.
pub open spec fn not_flag(v: JsonValue) -> Option<bool> {
    match v {
        JsonValue::Bool(b) => Some(b),
        JsonValue::Str(s) => {
            if s@ == seq!['t', 'r', 'u', 'e'] {
                Some(true)
            } else if s@ == seq!['f', 'a', 'l', 's', 'e'] {
                Some(false)
            } else {
                None
            }
        },
        _ => None,
    }
}

/// The number of items of an array; zero for any other value.
pub open spec fn array_len(v: JsonValue) -> nat {
    match v {
        JsonValue::Array(items) => items.len() as nat,
        _ => 0,
    }
}

/// The error that parsing `v` as a formula ends in, or `None` when it
/// succeeds.
///
/// A string is a leaf. An object is checked in this order: every key must
/// be known; exactly one of `and` and `or` must be present; the value of
/// `not`, if present, must give a flag; the operator's value must be an
/// array whose items, in order, parse.
pub open spec fn parse_error(v: JsonValue) -> Option<ParseError>
    decreases v, 1nat, 0nat,
{
    match v {
        JsonValue::Str(_) => None,
        JsonValue::Object(entries) => {
            let es = entries@;
            if exists|i: int| 0 <= i < es.len() && key_from_name(#[trigger] es[i].0@) is None {
                Some(ParseError::UnknownKey)
            } else if has_key(es, and_name()) && has_key(es, or_name()) {
                Some(ParseError::ConflictingOperator)
            } else if !has_key(es, and_name()) && !has_key(es, or_name()) {
                Some(ParseError::MissingOperator)
            } else if has_key(es, not_name()) && not_flag(
                es[choose|i: int| is_first(es, not_name(), i)].1,
            ) is None {
                Some(ParseError::TypeMismatch)
            } else {
                let k = if has_key(es, and_name()) {
                    and_name()
                } else {
                    or_name()
                };
                let i = choose|i: int| is_first(es, k, i);
                let operand = es[i].1;
                if operand is Array {
                    items_error(operand, array_len(operand))
                } else {
                    Some(ParseError::TypeMismatch)
                }
            }
        },
        _ => Some(ParseError::UnexpectedShape),
    }
}

/// The first error among the first `n` items of array `a`, if any.
pub open spec fn items_error(a: JsonValue, n: nat) -> Option<ParseError>
    decreases a, 0nat, n,
{
    match a {
        JsonValue::Array(items) => {
            if n == 0 || n > items.len() {
                None
            } else {
                match items_error(a, (n - 1) as nat) {
                    Some(e) => Some(e),
                    None => parse_error(items[n - 1]),
                }
            }
        },
        _ => None,
    }
}

/// The operand of an object formula: the value of its `and` key when it
/// has one, else that of its `or` key.
pub open spec fn operand_key(es: Seq<(String, JsonValue)>) -> Seq<char> {
    if has_key(es, and_name()) {
        and_name()
    } else {
        or_name()
    }
}

/// The negation flag of an object formula: that of its `not` key, and
/// `false` when it has none.
pub open spec fn negation_of(es: Seq<(String, JsonValue)>) -> bool {
    if has_key(es, not_name()) {
        not_flag(es[choose|i: int| is_first(es, not_name(), i)].1) == Some(true)
    } else {
        false
    }
}

/// `e` is the tree that a value `v` without parse error stands for: a
/// string is a leaf with that path; an object is an operator whose kind is
/// the key of its operand, whose negation is the object's flag, and whose
/// children are those of the operand's items, in order.
pub open spec fn parses_to(v: JsonValue, e: Expression) -> bool
    decreases v,
{
    match v {
        JsonValue::Str(s) => e is Leaf && e->Leaf_0@ == s@,
        JsonValue::Object(entries) => {
            let es = entries@;
            let k = operand_key(es);
            if has_key(es, k) {
                let operand = es[choose|i: int| is_first(es, k, i)].1;
                match e {
                    Expression::Operator { kind, children, negated } => {
                        &&& key_from_name(k) == Some(kind_key(kind))
                        &&& negated == negation_of(es)
                        &&& operand is Array
                        &&& children.len() == array_len(operand)
                        &&& forall|j: int|
                            0 <= j < children.len() ==> parses_to(
                                #[trigger] operand->Array_0[j],
                                children[j],
                            )
                    },
                    Expression::Leaf(_) => false,
                }
            } else {
                false
            }
        },
        _ => false,
    }
}

/// At most one index is the first with a given key.
proof fn lemma_first_unique(es: Seq<(String, JsonValue)>, k: Seq<char>, i: int, j: int)
    requires
        is_first(es, k, i),
        is_first(es, k, j),
    ensures
        i == j,
{
}

/// Once an error is found among the first `m` items, it is the first error
/// among any longer prefix.
proof fn lemma_items_error_stable(a: JsonValue, m: nat, n: nat)
    requires
        m <= n <= array_len(a),
        items_error(a, m) is Some,
    ensures
        items_error(a, n) == items_error(a, m),
    decreases n,
{
    if n > m {
        lemma_items_error_stable(a, m, (n - 1) as nat);
    }
}

/// Two trees that a value stands for render alike.
pub proof fn lemma_parsed_sql_unique(v: JsonValue, e1: Expression, e2: Expression)
    requires
        parses_to(v, e1),
        parses_to(v, e2),
    ensures
        sql_of(e1) == sql_of(e2),
    decreases v, 1nat, 0nat,
{
    if let JsonValue::Object(entries) = v {
        lemma_parsed_join_unique(v, e1, e2, e1->children.len() as nat);
    }
}

/// The joined texts of the first `n` children of two trees that an object
/// stands for agree.
proof fn lemma_parsed_join_unique(v: JsonValue, e1: Expression, e2: Expression, n: nat)
    requires
        v is Object,
        parses_to(v, e1),
        parses_to(v, e2),
        n <= e1->children.len(),
    ensures
        sql_join(e1, n) == sql_join(e2, n),
    decreases v, 0nat, n,
{
    let entries = v->Object_0;
    let es = entries@;
    let i = choose|i: int| is_first(es, operand_key(es), i);
    let operand = es[i].1;
    let items = operand->Array_0;
    if n > 0 {
        let j = n - 1;
        assert(decreases_to!(v => v->Object_0));
        assert(decreases_to!(entries => entries[i]));
        assert(decreases_to!(entries[i] => entries[i].1));
        assert(decreases_to!(operand => operand->Array_0));
        assert(decreases_to!(items => items[j]));
        assert(parses_to(items@[j], e1->children@[j]));
        lemma_parsed_sql_unique(items@[j], e1->children@[j], e2->children@[j]);
        if n > 1 {
            lemma_parsed_join_unique(v, e1, e2, (n - 1) as nat);
        }
    }
}

impl Key {
    /// The key that an object key names (see [`key_from_name`]);
    /// `UnknownKey` for any other text.
    pub fn from_name(name: &str) -> (r: Result<Key, ParseError>)
        ensures
            match r {
                Ok(k) => key_from_name(name@) == Some(k),
                Err(e) => key_from_name(name@) is None && e == ParseError::UnknownKey,
            },
    {
        proof {
            reveal_strlit("and");
            reveal_strlit("or");
            reveal_strlit("not");
            assert("and"@ =~= and_name());
            assert("or"@ =~= or_name());
            assert("not"@ =~= not_name());
        }
        if text_eq(name, "and") {
            Ok(Key::And)
        } else if text_eq(name, "or") {
            Ok(Key::Or)
        } else if text_eq(name, "not") {
            Ok(Key::Not)
        } else {
            Err(ParseError::UnknownKey)
        }
    }
}

/// The negation flag that the value of `not` gives (see [`not_flag`]);
/// `TypeMismatch` when it gives none.
pub fn flag_of(v: &JsonValue) -> (r: Result<bool, ParseError>)
    ensures
        match r {
            Ok(b) => not_flag(*v) == Some(b),
            Err(e) => not_flag(*v) is None && e == ParseError::TypeMismatch,
        },
{
    proof {
        reveal_strlit("true");
        reveal_strlit("false");
        assert("true"@ =~= seq!['t', 'r', 'u', 'e']);
        assert("false"@ =~= seq!['f', 'a', 'l', 's', 'e']);
    }
    match v {
        JsonValue::Bool(b) => Ok(*b),
        JsonValue::Str(s) => {
            if text_eq(s.as_str(), "true") {
                Ok(true)
            } else if text_eq(s.as_str(), "false") {
                Ok(false)
            } else {
                Err(ParseError::TypeMismatch)
            }
        },
        _ => Err(ParseError::TypeMismatch),
    }
}

/// Builds the expression tree that a JSON value stands for.
///
/// Fails with [`parse_error`] exactly when that is some error; otherwise
/// the tree is the one that [`parses_to`] relates to the value.
pub fn parse(v: &JsonValue) -> (r: Result<Expression, ParseError>)
    ensures
        match r {
            Ok(e) => parse_error(*v) is None && parses_to(*v, e),
            Err(x) => parse_error(*v) == Some(x),
        },
    decreases v,
{
    match v {
        JsonValue::Str(s) => Ok(Expression::Leaf(s.clone())),
        JsonValue::Object(entries) => {
            let ghost es = entries@;
            let mut i: usize = 0;
            while i < entries.len()
                invariant
                    i <= entries.len(),
                    es == entries@,
                    *v == JsonValue::Object(*entries),
                    forall|j: int| 0 <= j < i ==> key_from_name(#[trigger] es[j].0@) is Some,
                decreases entries.len() - i,
            {
                if let Err(e) = Key::from_name(entries[i].0.as_str()) {
                    assert(key_from_name(es[i as int].0@) is None);
                    return Err(e);
                }
                i = i + 1;
            }
            proof {
                reveal_strlit("and");
                reveal_strlit("or");
                reveal_strlit("not");
                assert("and"@ =~= and_name());
                assert("or"@ =~= or_name());
                assert("not"@ =~= not_name());
            }
            let and_at = find_key(entries, "and");
            let or_at = find_key(entries, "or");
            let (kind, at) = match (and_at, or_at) {
                (Some(a), None) => (LogicKind::And, a),
                (None, Some(o)) => (LogicKind::Or, o),
                (Some(_), Some(_)) => {
                    return Err(ParseError::ConflictingOperator);
                },
                (None, None) => {
                    return Err(ParseError::MissingOperator);
                },
            };
            let ghost k = operand_key(es);
            proof {
                lemma_first_unique(es, k, choose|i: int| is_first(es, k, i), at as int);
            }
            let negated = match find_key(entries, "not") {
                Some(n) => {
                    proof {
                        lemma_first_unique(
                            es,
                            not_name(),
                            choose|i: int| is_first(es, not_name(), i),
                            n as int,
                        );
                    }
                    match flag_of(&entries[n].1) {
                        Ok(b) => b,
                        Err(e) => {
                            return Err(e);
                        },
                    }
                },
                None => false,
            };
            let operand = &entries[at].1;
            match operand {
                JsonValue::Array(items) => {
                    let mut children: Vec<Expression> = Vec::new();
                    let mut j: usize = 0;
                    while j < items.len()
                        invariant
                            j <= items.len(),
                            *operand == JsonValue::Array(*items),
                            es == entries@,
                            *v == JsonValue::Object(*entries),
                            at < entries.len(),
                            *operand == es[at as int].1,
                            is_first(es, operand_key(es), at as int),
                            key_from_name(operand_key(es)) == Some(kind_key(kind)),
                            negated == negation_of(es),
                            parse_error(*v) == items_error(*operand, items.len() as nat),
                            children.len() == j,
                            items_error(*operand, j as nat) is None,
                            forall|m: int|
                                0 <= m < j ==> parses_to(#[trigger] items@[m], children@[m]),
                        decreases items.len() - j,
                    {
                        proof {
                            assert(decreases_to!(*v => (*v)->Object_0));
                            assert(decreases_to!(*entries => entries[at as int]));
                            assert(decreases_to!(entries[at as int] => entries[at as int].1));
                            assert(decreases_to!(*operand => (*operand)->Array_0));
                            assert(decreases_to!(*items => items[j as int]));
                            assert(decreases_to!(*v => items[j as int]));
                        }
                        match parse(&items[j]) {
                            Ok(c) => {
                                children.push(c);
                            },
                            Err(e) => {
                                proof {
                                    lemma_items_error_stable(
                                        *operand,
                                        (j + 1) as nat,
                                        items.len() as nat,
                                    );
                                }
                                return Err(e);
                            },
                        }
                        j = j + 1;
                    }
                    let r = Expression::Operator { kind, children, negated };
                    assert(parses_to(*v, r));
                    Ok(r)
                },
                _ => Err(ParseError::TypeMismatch),
            }
        },
        _ => Err(ParseError::UnexpectedShape),
    }
}

} // verus!
