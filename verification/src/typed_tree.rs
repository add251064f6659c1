//! Typed expression trees and their evaluation.
//!
//! A tree is a constant, a reference to a column of the current row, or an
//! operator applied to one or two trees. A static tree holds no column
//! reference and is evaluated without a row; a dynamic tree is evaluated
//! against a row.

use crate::decimal::{decimal_of_text, Decimal};
use crate::query_result::{outcome, ErrorContent, QueryExecutionError};
use crate::typed_values::{well_tagged_values, TypedContent, TypedValue};
use crate::types::SqlTypeFamily;
use vstd::prelude::*;
use vstd::string::StringExecFns;

verus! {

/// Operators of one operand.
#[derive(Debug, PartialEq, Eq, Clone, Copy, Structural)]
pub enum UnOperator {
    /// Explicit cast to a family.
    Cast(SqlTypeFamily),
    /// Arithmetic negation.
    Minus,
    /// Logical negation.
    Not,
}

/// Operators of two operands.
#[derive(Debug, PartialEq, Eq, Clone, Copy, Structural)]
pub enum BiOperator {
    /// Sum of two numbers.
    Add,
    /// Difference of two numbers.
    Sub,
    /// Conjunction of two booleans.
    And,
    /// Disjunction of two booleans.
    Or,
    /// Two strings joined.
    Concat,
}

/// A typed expression tree.
#[derive(Debug, PartialEq)]
#[allow(inconsistent_fields)]
pub enum TypedTree {
    Constant(TypedValue),
    ColumnReference(String),
    UnaryOp { op: UnOperator, item: Box<TypedTree> },
    BinaryOp { op: BiOperator, left: Box<TypedTree>, right: Box<TypedTree> },
}

/// The row that a dynamic tree is evaluated against: the names of its
/// columns and, position by position, their values, none standing for null.
#[derive(Debug, PartialEq)]
pub struct Row {
    pub columns: Vec<String>,
    pub values: Vec<Option<TypedValue>>,
}

/// The mathematical content of a row.
pub struct RowContent {
    pub columns: Seq<Seq<char>>,
    pub values: Seq<Option<TypedContent>>,
}

impl View for Row {
    type V = RowContent;

    open spec fn view(&self) -> RowContent {
        RowContent { columns: self.columns.deep_view(), values: self.values.deep_view() }
    }
}

/// Position of the first of the names that equals `name`, if there is one.
pub open spec fn first_position(names: Seq<Seq<char>>, name: Seq<char>) -> Option<int>
    decreases names.len(),
{
    if names.len() == 0 {
        None
    } else {
        match first_position(names.drop_last(), name) {
            Some(i) => Some(i),
            None => if names.last() == name {
                Some(names.len() - 1)
            } else {
                None
            },
        }
    }
}

/// The position that is found holds the name, and no position before it
/// does; where none is found, no position holds the name.
pub proof fn lemma_first_position(names: Seq<Seq<char>>, name: Seq<char>)
    ensures
        match first_position(names, name) {
            Some(i) => 0 <= i < names.len() && names[i] == name && forall|j: int|
                0 <= j < i ==> names[j] != name,
            None => forall|j: int| 0 <= j < names.len() ==> names[j] != name,
        },
    decreases names.len(),
{
    if names.len() > 0 {
        let front = names.drop_last();
        lemma_first_position(front, name);
        assert forall|j: int| 0 <= j < front.len() implies front[j] == names[j] by {}
        match first_position(front, name) {
            Some(i) => {
                assert(front[i] == names[i]);
            },
            None => {
                assert forall|j: int| 0 <= j < names.len() - 1 implies names[j] != name by {
                    assert(front[j] == names[j]);
                }
            },
        }
    }
}

/// A name that is found among the first names is found at the same
/// position among all of them.
pub proof fn lemma_first_position_stays(names: Seq<Seq<char>>, name: Seq<char>, front: int)
    requires
        0 <= front <= names.len(),
        first_position(names.take(front), name) is Some,
    ensures
        first_position(names, name) == first_position(names.take(front), name),
    decreases names.len(),
{
    if front < names.len() {
        assert(names.drop_last().take(front) =~= names.take(front));
        lemma_first_position_stays(names.drop_last(), name, front);
    } else {
        assert(names.take(front) =~= names);
    }
}

impl RowContent {
    /// Position of the first column of the given name, if there is one.
    pub open spec fn position(self, name: Seq<char>) -> Option<int> {
        first_position(self.columns, name)
    }
}

/// What a cast makes of a value.
pub open spec fn cast_value(family: SqlTypeFamily, value: TypedContent) -> Result<
    TypedContent,
    ErrorContent,
> {
    let undefined = Err(
        ErrorContent::UndefinedUnaryOperation {
            operator: UnOperator::Cast(family),
            operand: value.family(),
        },
    );
    match value {
        TypedContent::Num { value: number, .. } => if family.is_integer() {
            Ok(TypedContent::Num { value: number, type_family: family })
        } else if family is String {
            Ok(TypedContent::String(value.text()))
        } else {
            undefined
        },
        TypedContent::String(text) => if family.is_integer() {
            match decimal_of_text(text) {
                Some(number) => Ok(TypedContent::Num { value: number, type_family: family }),
                None => Err(ErrorContent::InvalidTextRepresentation { type_family: family, text }),
            }
        } else if family is String {
            Ok(value)
        } else {
            undefined
        },
        TypedContent::Bool(_) => if family is Bool {
            Ok(value)
        } else if family is String {
            Ok(TypedContent::String(value.text()))
        } else {
            undefined
        },
    }
}

/// What a unary operator makes of a value.
pub open spec fn unary_value(op: UnOperator, value: TypedContent) -> Result<
    TypedContent,
    ErrorContent,
> {
    let undefined = Err(
        ErrorContent::UndefinedUnaryOperation { operator: op, operand: value.family() },
    );
    match op {
        UnOperator::Cast(family) => cast_value(family, value),
        UnOperator::Minus => match value {
            TypedContent::Num { value: number, type_family } => Ok(
                TypedContent::Num { value: number.negated(), type_family },
            ),
            _ => undefined,
        },
        UnOperator::Not => match value {
            TypedContent::Bool(flag) => Ok(TypedContent::Bool(!flag)),
            _ => undefined,
        },
    }
}

/// What a binary operator makes of two values. The family of a sum or a
/// difference is the common family of its operands.
pub open spec fn binary_value(op: BiOperator, left: TypedContent, right: TypedContent) -> Result<
    TypedContent,
    ErrorContent,
> {
    let undefined = Err(
        ErrorContent::UndefinedBinaryOperation {
            operator: op,
            left: left.family(),
            right: right.family(),
        },
    );
    match (op, left, right) {
        (
            BiOperator::Add,
            TypedContent::Num { value: a, type_family: f },
            TypedContent::Num { value: b, type_family: g },
        ) => match f.widest(g) {
            Some(family) => Ok(TypedContent::Num { value: a.plus(b), type_family: family }),
            None => undefined,
        },
        (
            BiOperator::Sub,
            TypedContent::Num { value: a, type_family: f },
            TypedContent::Num { value: b, type_family: g },
        ) => match f.widest(g) {
            Some(family) => Ok(TypedContent::Num { value: a.minus(b), type_family: family }),
            None => undefined,
        },
        (BiOperator::And, TypedContent::Bool(a), TypedContent::Bool(b)) => Ok(
            TypedContent::Bool(a && b),
        ),
        (BiOperator::Or, TypedContent::Bool(a), TypedContent::Bool(b)) => Ok(
            TypedContent::Bool(a || b),
        ),
        (BiOperator::Concat, TypedContent::String(a), TypedContent::String(b)) => Ok(
            TypedContent::String(a + b),
        ),
        _ => undefined,
    }
}

impl TypedTree {
    /// Whether the tree holds no column reference.
    pub open spec fn is_static(self) -> bool
        decreases self,
    {
        match self {
            TypedTree::Constant(_) => true,
            TypedTree::ColumnReference(_) => false,
            TypedTree::UnaryOp { item, .. } => item.is_static(),
            TypedTree::BinaryOp { left, right, .. } => left.is_static() && right.is_static(),
        }
    }

    /// Whether every number among the constants of the tree is tagged with
    /// an integer family.
    pub open spec fn well_formed(self) -> bool
        decreases self,
    {
        match self {
            TypedTree::Constant(value) => value@.well_tagged(),
            TypedTree::ColumnReference(_) => true,
            TypedTree::UnaryOp { item, .. } => item.well_formed(),
            TypedTree::BinaryOp { left, right, .. } => left.well_formed() && right.well_formed(),
        }
    }

    /// The value of the tree against a row, none standing for null. A
    /// column reference gives the value of the first column of its name; an
    /// operator gives null where an operand is null; the first failure, left
    /// operand before right, ends the evaluation.
    pub open spec fn value(self, row: Option<RowContent>) -> Result<Option<TypedContent>, ErrorContent>
        decreases self,
    {
        match self {
            TypedTree::Constant(value) => Ok(Some(value@)),
            TypedTree::ColumnReference(name) => match row {
                Some(row) => match row.position(name@) {
                    Some(i) => if i < row.values.len() {
                        Ok(row.values[i])
                    } else {
                        Err(ErrorContent::UndefinedColumn { name: name@ })
                    },
                    None => Err(ErrorContent::UndefinedColumn { name: name@ }),
                },
                None => Err(ErrorContent::UndefinedColumn { name: name@ }),
            },
            TypedTree::UnaryOp { op, item } => match item.value(row) {
                Err(e) => Err(e),
                Ok(None) => Ok(None),
                Ok(Some(value)) => match unary_value(op, value) {
                    Ok(v) => Ok(Some(v)),
                    Err(e) => Err(e),
                },
            },
            TypedTree::BinaryOp { op, left, right } => match left.value(row) {
                Err(e) => Err(e),
                Ok(a) => match right.value(row) {
                    Err(e) => Err(e),
                    Ok(b) => match (a, b) {
                        (Some(a), Some(b)) => match binary_value(op, a, b) {
                            Ok(v) => Ok(Some(v)),
                            Err(e) => Err(e),
                        },
                        _ => Ok(None),
                    },
                },
            },
        }
    }
}

impl RowContent {
    /// Whether every number among the values of the row is tagged with an
    /// integer family.
    pub open spec fn well_tagged(self) -> bool {
        well_tagged_values(self.values)
    }
}

/// A well-formed tree evaluates, against a row of well-tagged values or
/// without a row, to a well-tagged value.
pub proof fn lemma_value_well_tagged(tree: TypedTree, row: Option<RowContent>)
    requires
        tree.well_formed(),
        row matches Some(content) ==> content.well_tagged(),
    ensures
        tree.value(row) matches Ok(Some(value)) ==> value.well_tagged(),
    decreases tree,
{
    match tree {
        TypedTree::Constant(_) => {},
        TypedTree::ColumnReference(name) => {
            if let Some(content) = row {
                lemma_first_position(content.columns, name@);
            }
        },
        TypedTree::UnaryOp { item, .. } => {
            lemma_value_well_tagged(*item, row);
        },
        TypedTree::BinaryOp { left, right, .. } => {
            lemma_value_well_tagged(*left, row);
            lemma_value_well_tagged(*right, row);
        },
    }
}

/// Without a row no tree evaluates to null.
pub proof fn lemma_value_without_row_not_null(tree: TypedTree)
    ensures
        tree.value(None) matches Ok(value) ==> value is Some,
    decreases tree,
{
    match tree {
        TypedTree::Constant(_) => {},
        TypedTree::ColumnReference(_) => {},
        TypedTree::UnaryOp { item, .. } => {
            lemma_value_without_row_not_null(*item);
        },
        TypedTree::BinaryOp { left, right, .. } => {
            lemma_value_without_row_not_null(*left);
            lemma_value_without_row_not_null(*right);
        },
    }
}

/// A static tree evaluates against any row as it does without one.
pub proof fn lemma_static_value_ignores_row(tree: TypedTree, row: Option<RowContent>)
    requires
        tree.is_static(),
    ensures
        tree.value(row) == tree.value(None),
    decreases tree,
{
    match tree {
        TypedTree::Constant(_) => {},
        TypedTree::ColumnReference(_) => {},
        TypedTree::UnaryOp { item, .. } => {
            lemma_static_value_ignores_row(*item, row);
        },
        TypedTree::BinaryOp { left, right, .. } => {
            lemma_static_value_ignores_row(*left, row);
            lemma_static_value_ignores_row(*right, row);
        },
    }
}

/// Applies a cast to a value.
pub fn cast(family: SqlTypeFamily, value: TypedValue) -> (r: Result<TypedValue, QueryExecutionError>)
    ensures
        outcome(r) == cast_value(family, value@),
{
    let source = value.type_family();
    match value {
        TypedValue::Num { value: number, type_family } => {
            if family.is_integer_family() {
                Ok(TypedValue::Num { value: number, type_family: family })
            } else if family == SqlTypeFamily::String {
                Ok(TypedValue::String(number.to_text()))
            } else {
                Err(
                    QueryExecutionError::UndefinedUnaryOperation {
                        operator: UnOperator::Cast(family),
                        operand: type_family,
                    },
                )
            }
        },
        TypedValue::String(text) => {
            if family.is_integer_family() {
                match Decimal::parse(text.as_str()) {
                    Some(number) => Ok(TypedValue::Num { value: number, type_family: family }),
                    None => Err(
                        QueryExecutionError::InvalidTextRepresentation { type_family: family, text },
                    ),
                }
            } else if family == SqlTypeFamily::String {
                Ok(TypedValue::String(text))
            } else {
                Err(
                    QueryExecutionError::UndefinedUnaryOperation {
                        operator: UnOperator::Cast(family),
                        operand: SqlTypeFamily::String,
                    },
                )
            }
        },
        TypedValue::Bool(flag) => {
            if family == SqlTypeFamily::Bool {
                Ok(TypedValue::Bool(flag))
            } else if family == SqlTypeFamily::String {
                Ok(TypedValue::String(TypedValue::Bool(flag).to_text()))
            } else {
                Err(
                    QueryExecutionError::UndefinedUnaryOperation {
                        operator: UnOperator::Cast(family),
                        operand: SqlTypeFamily::Bool,
                    },
                )
            }
        },
    }
}

impl UnOperator {
    /// Applies the operator to a value.
    pub fn eval(&self, value: TypedValue) -> (r: Result<TypedValue, QueryExecutionError>)
        ensures
            outcome(r) == unary_value(*self, value@),
    {
        match self {
            UnOperator::Cast(family) => cast(*family, value),
            UnOperator::Minus => match value {
                TypedValue::Num { value: number, type_family } => Ok(
                    TypedValue::Num { value: number.negated(), type_family },
                ),
                other => Err(
                    QueryExecutionError::UndefinedUnaryOperation {
                        operator: *self,
                        operand: family_of(&other),
                    },
                ),
            },
            UnOperator::Not => match value {
                TypedValue::Bool(flag) => Ok(TypedValue::Bool(!flag)),
                other => Err(
                    QueryExecutionError::UndefinedUnaryOperation {
                        operator: *self,
                        operand: family_of(&other),
                    },
                ),
            },
        }
    }
}

/// The family of a value.
fn family_of(value: &TypedValue) -> (r: SqlTypeFamily)
    ensures
        r == value@.family(),
{
    match value {
        TypedValue::Num { type_family, .. } => *type_family,
        TypedValue::String(_) => SqlTypeFamily::String,
        TypedValue::Bool(_) => SqlTypeFamily::Bool,
    }
}

impl BiOperator {
    /// Applies the operator to two values.
    pub fn eval(&self, left: TypedValue, right: TypedValue) -> (r: Result<
        TypedValue,
        QueryExecutionError,
    >)
        ensures
            outcome(r) == binary_value(*self, left@, right@),
    {
        let undefined = QueryExecutionError::UndefinedBinaryOperation {
            operator: *self,
            left: family_of(&left),
            right: family_of(&right),
        };
        match (self, left, right) {
            (
                BiOperator::Add,
                TypedValue::Num { value: a, type_family: f },
                TypedValue::Num { value: b, type_family: g },
            ) => match f.compare(&g) {
                Ok(family) => Ok(TypedValue::Num { value: a.plus(&b), type_family: family }),
                Err(_) => Err(undefined),
            },
            (
                BiOperator::Sub,
                TypedValue::Num { value: a, type_family: f },
                TypedValue::Num { value: b, type_family: g },
            ) => match f.compare(&g) {
                Ok(family) => Ok(TypedValue::Num { value: a.minus(&b), type_family: family }),
                Err(_) => Err(undefined),
            },
            (BiOperator::And, TypedValue::Bool(a), TypedValue::Bool(b)) => Ok(
                TypedValue::Bool(a && b),
            ),
            (BiOperator::Or, TypedValue::Bool(a), TypedValue::Bool(b)) => Ok(
                TypedValue::Bool(a || b),
            ),
            (BiOperator::Concat, TypedValue::String(a), TypedValue::String(b)) => Ok(
                TypedValue::String(a.concat(b.as_str())),
            ),
            _ => Err(undefined),
        }
    }
}

/// The content of the row that a tree is evaluated against, if any.
pub open spec fn row_content(row: Option<&Row>) -> Option<RowContent> {
    match row {
        Some(row) => Some(row@),
        None => None,
    }
}

impl Row {
    /// Position of the first column of the given name.
    pub fn position(&self, name: &String) -> (r: Option<usize>)
        ensures
            r is Some <==> self@.position(name@) is Some,
            r matches Some(i) ==> self@.position(name@) == Some(i as int),
    {
        let ghost names = self.columns.deep_view();
        let mut i: usize = 0;
        proof {
            assert(names.take(0) =~= Seq::<Seq<char>>::empty());
        }
        while i < self.columns.len()
            invariant
                i <= self.columns@.len(),
                names == self.columns.deep_view(),
                names.len() == self.columns@.len(),
                first_position(names.take(i as int), name@) is None,
            decreases self.columns@.len() - i,
        {
            proof {
                assert(names.take(i + 1).drop_last() =~= names.take(i as int));
                assert(names.take(i + 1).last() == self.columns@[i as int]@);
            }
            if self.columns[i] == *name {
                proof {
                    lemma_first_position_stays(names, name@, i + 1);
                }
                return Some(i);
            }
            i += 1;
        }
        proof {
            assert(names.take(i as int) =~= names);
        }
        None
    }
}

impl TypedTree {
    /// Evaluates the tree against a row, or without one.
    pub fn eval(&self, row: Option<&Row>) -> (r: Result<Option<TypedValue>, QueryExecutionError>)
        ensures
            outcome(r) == self.value(row_content(row)),
        decreases self,
    {
        match self {
            TypedTree::Constant(value) => Ok(Some(value.clone())),
            TypedTree::ColumnReference(name) => {
                let found = match row {
                    Some(row) => match row.position(name) {
                        Some(i) => if i < row.values.len() {
                            Some(
                                match &row.values[i] {
                                    Some(value) => Some(value.clone()),
                                    None => None,
                                },
                            )
                        } else {
                            None
                        },
                        None => None,
                    },
                    None => None,
                };
                match found {
                    Some(value) => Ok(value),
                    None => Err(QueryExecutionError::UndefinedColumn { name: name.clone() }),
                }
            },
            TypedTree::UnaryOp { op, item } => match item.eval(row) {
                Err(e) => Err(e),
                Ok(None) => Ok(None),
                Ok(Some(value)) => match op.eval(value) {
                    Ok(v) => Ok(Some(v)),
                    Err(e) => Err(e),
                },
            },
            TypedTree::BinaryOp { op, left, right } => match left.eval(row) {
                Err(e) => Err(e),
                Ok(a) => match right.eval(row) {
                    Err(e) => Err(e),
                    Ok(b) => match (a, b) {
                        (Some(a), Some(b)) => match op.eval(a, b) {
                            Ok(v) => Ok(Some(v)),
                            Err(e) => Err(e),
                        },
                        _ => Ok(None),
                    },
                },
            },
        }
    }

    /// Whether every number among the constants of the tree is tagged with
    /// an integer family.
    pub fn is_well_formed(&self) -> (r: bool)
        ensures
            r == self.well_formed(),
        decreases self,
    {
        match self {
            TypedTree::Constant(TypedValue::Num { type_family, .. }) => {
                type_family.is_integer_family()
            },
            TypedTree::Constant(_) => true,
            TypedTree::ColumnReference(_) => true,
            TypedTree::UnaryOp { item, .. } => item.is_well_formed(),
            TypedTree::BinaryOp { left, right, .. } => left.is_well_formed()
                && right.is_well_formed(),
        }
    }

    /// Whether the tree holds no column reference.
    pub fn has_no_reference(&self) -> (r: bool)
        ensures
            r == self.is_static(),
        decreases self,
    {
        match self {
            TypedTree::Constant(_) => true,
            TypedTree::ColumnReference(_) => false,
            TypedTree::UnaryOp { item, .. } => item.has_no_reference(),
            TypedTree::BinaryOp { left, right, .. } => left.has_no_reference()
                && right.has_no_reference(),
        }
    }
}

/// A tree without column references, as the value lists of an insert hold
/// them.
#[derive(Debug, PartialEq)]
pub struct StaticTypedTree {
    tree: TypedTree,
}

impl DeepView for StaticTypedTree {
    type V = TypedTree;

    closed spec fn deep_view(&self) -> TypedTree {
        self.tree
    }
}

/// The value of a tree that is evaluated without a row.
pub open spec fn static_value(tree: TypedTree) -> Result<TypedContent, ErrorContent> {
    match tree.value(None) {
        Ok(value) => Ok(value->0),
        Err(error) => Err(error),
    }
}

impl StaticTypedTree {
    #[verifier::type_invariant]
    spec fn holds_no_reference(self) -> bool {
        self.tree.is_static()
    }

    /// The static tree with the given nodes; none where a node is a column
    /// reference.
    pub fn new(tree: TypedTree) -> (r: Option<StaticTypedTree>)
        ensures
            r is Some <==> tree.is_static(),
            r matches Some(made) ==> made.deep_view() == tree,
    {
        if tree.has_no_reference() {
            Some(StaticTypedTree { tree })
        } else {
            None
        }
    }

    /// The tree of a constant.
    pub fn constant(value: TypedValue) -> (r: StaticTypedTree)
        ensures
            r.deep_view() == TypedTree::Constant(value),
    {
        StaticTypedTree { tree: TypedTree::Constant(value) }
    }

    /// The tree of a unary operator and its operand.
    pub fn unary(op: UnOperator, item: StaticTypedTree) -> (r: StaticTypedTree)
        ensures
            r.deep_view() == (TypedTree::UnaryOp { op, item: Box::new(item.deep_view()) }),
    {
        proof {
            use_type_invariant(&item);
        }
        StaticTypedTree { tree: TypedTree::UnaryOp { op, item: Box::new(item.tree) } }
    }

    /// The tree of a binary operator and its operands.
    pub fn binary(op: BiOperator, left: StaticTypedTree, right: StaticTypedTree) -> (r:
        StaticTypedTree)
        ensures
            r.deep_view() == (TypedTree::BinaryOp {
                op,
                left: Box::new(left.deep_view()),
                right: Box::new(right.deep_view()),
            }),
    {
        proof {
            use_type_invariant(&left);
            use_type_invariant(&right);
        }
        StaticTypedTree {
            tree: TypedTree::BinaryOp { op, left: Box::new(left.tree), right: Box::new(right.tree) },
        }
    }

    /// The nodes of the tree, which hold no column reference.
    pub fn tree(&self) -> (r: &TypedTree)
        ensures
            *r == self.deep_view(),
            r.is_static(),
    {
        proof {
            use_type_invariant(self);
        }
        &self.tree
    }

    /// Evaluates the tree.
    pub fn eval(&self) -> (r: Result<TypedValue, QueryExecutionError>)
        ensures
            outcome(r) == static_value(self.deep_view()),
    {
        proof {
            lemma_value_without_row_not_null(self.tree);
        }
        match self.tree.eval(None) {
            Ok(Some(value)) => Ok(value),
            // Null comes from the cells of a row only: not reached.
            Ok(None) => Err(QueryExecutionError::UndefinedColumn { name: String::new() }),
            Err(error) => Err(error),
        }
    }
}

/// A tree that may refer to the columns of the row it is evaluated against,
/// as the assignments of an update and the projection of a select hold them.
#[derive(Debug, PartialEq)]
pub struct DynamicTypedTree {
    pub tree: TypedTree,
}

impl DeepView for DynamicTypedTree {
    type V = TypedTree;

    open spec fn deep_view(&self) -> TypedTree {
        self.tree
    }
}

impl DynamicTypedTree {
    /// Evaluates the tree against a row; none stands for null.
    pub fn eval(&self, row: &Row) -> (r: Result<Option<TypedValue>, QueryExecutionError>)
        ensures
            outcome(r) == self.tree.value(Some(row@)),
    {
        self.tree.eval(Some(row))
    }
}

} // verus!
