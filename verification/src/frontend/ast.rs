use vstd::prelude::*;
use crate::frontend::number::{is_float_syntax, is_float_text};

verus! {

/// The text of a floating-point literal.
///
/// Every value of this type holds a text that writes a floating-point
/// number; which binary number is nearest to it is left to the user of the
/// tree.
#[derive(Debug)]
pub struct FloatLiteral {
    text: String,
}

impl View for FloatLiteral {
    type V = Seq<char>;

    closed spec fn view(&self) -> Seq<char> {
        self.text@
    }
}

impl FloatLiteral {
    #[verifier::type_invariant]
    spec fn valid(self) -> bool {
        is_float_syntax(self.text@)
    }

    /// Keeps a text as a literal if it writes a floating-point number.
    pub fn new(text: &str) -> (literal: Option<FloatLiteral>)
        ensures
            literal is Some <==> is_float_syntax(text@),
            literal matches Some(l) ==> l@ == text@,
    {
        if is_float_text(text) {
            Some(FloatLiteral { text: text.to_owned() })
        } else {
            None
        }
    }

    /// The text of the literal.
    pub fn as_str(&self) -> (text: &str)
        ensures
            text@ == self@,
            is_float_syntax(text@),
    {
        proof {
            use_type_invariant(self);
        }
        self.text.as_str()
    }
}

/// A numeric literal with its type.
#[derive(Debug)]
pub enum Value {
    SingleFloat(FloatLiteral),
    DoubleFloat(FloatLiteral),
    Long(i64),
    UnsignedLong(u64),
    Integer(i32),
    UnsignedInteger(u32),
    Short(i16),
    UnsignedShort(u16),
    Byte(u8),
    SignedByte(i8),
}

/// The mathematical content of a [`Value`].
pub enum SpecValue {
    SingleFloat(Seq<char>),
    DoubleFloat(Seq<char>),
    Long(i64),
    UnsignedLong(u64),
    Integer(i32),
    UnsignedInteger(u32),
    Short(i16),
    UnsignedShort(u16),
    Byte(u8),
    SignedByte(i8),
}

impl View for Value {
    type V = SpecValue;

    open spec fn view(&self) -> SpecValue {
        match self {
            Value::SingleFloat(literal) => SpecValue::SingleFloat(literal@),
            Value::DoubleFloat(literal) => SpecValue::DoubleFloat(literal@),
            Value::Long(v) => SpecValue::Long(*v),
            Value::UnsignedLong(v) => SpecValue::UnsignedLong(*v),
            Value::Integer(v) => SpecValue::Integer(*v),
            Value::UnsignedInteger(v) => SpecValue::UnsignedInteger(*v),
            Value::Short(v) => SpecValue::Short(*v),
            Value::UnsignedShort(v) => SpecValue::UnsignedShort(*v),
            Value::Byte(v) => SpecValue::Byte(*v),
            Value::SignedByte(v) => SpecValue::SignedByte(*v),
        }
    }
}

/// The operations on two values.
#[derive(Clone, Copy, Debug, PartialEq, Eq, Structural)]
pub enum BinaryOperation {
    Addition,
    Subtraction,
    Multiplication,
    Division,
}

/// The operations on one value.
#[derive(Clone, Copy, Debug, PartialEq, Eq, Structural)]
pub enum UnaryOperation {
    ArithmeticNegation,
}

/// An expression tree. A node owns its children.
#[allow(inconsistent_fields)]
#[derive(Debug)]
pub enum ValueNode {
    Literal(Value),
    UnaryExpression { op: UnaryOperation, value: Box<ValueNode> },
    BinaryExpression { left: Box<ValueNode>, op: BinaryOperation, right: Box<ValueNode> },
}

/// The mathematical content of a [`ValueNode`].
#[allow(inconsistent_fields)]
pub enum SpecNode {
    Literal(SpecValue),
    UnaryExpression { op: UnaryOperation, value: Box<SpecNode> },
    BinaryExpression { left: Box<SpecNode>, op: BinaryOperation, right: Box<SpecNode> },
}

impl View for ValueNode {
    type V = SpecNode;

    open spec fn view(&self) -> SpecNode
        decreases self,
    {
        match self {
            ValueNode::Literal(value) => SpecNode::Literal(value@),
            ValueNode::UnaryExpression { op, value } => SpecNode::UnaryExpression {
                op: *op,
                value: Box::new((**value)@),
            },
            ValueNode::BinaryExpression { left, op, right } => SpecNode::BinaryExpression {
                left: Box::new((**left)@),
                op: *op,
                right: Box::new((**right)@),
            },
        }
    }
}

} // verus!
