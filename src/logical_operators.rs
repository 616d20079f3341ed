use vstd::prelude::*;
use crate::albastream::{Error, ErrorKind};

verus! {

/// The comparison a predicate applies between a column and an operand.
#[derive(Debug, PartialEq, Eq, Clone, Copy, Structural)]
pub enum LogicalOperator {
    Equal,
    Diferent,
    Higher,
    Lower,
    HigherEquality,
    LowerEquality,
    StringContains,
    StringContainsInsensitive,
    StringRegex,
}

/// The stable numeric id of each operator.
pub open spec fn operator_id(op: LogicalOperator) -> u8 {
    match op {
        LogicalOperator::Equal => 0,
        LogicalOperator::Diferent => 1,
        LogicalOperator::Higher => 2,
        LogicalOperator::Lower => 3,
        LogicalOperator::HigherEquality => 4,
        LogicalOperator::LowerEquality => 5,
        LogicalOperator::StringContains => 6,
        LogicalOperator::StringContainsInsensitive => 7,
        LogicalOperator::StringRegex => 8,
    }
}

/// The operator with a given id, for ids 0..=8.
pub open spec fn operator_of(id: u8) -> LogicalOperator {
    if id == 0 {
        LogicalOperator::Equal
    } else if id == 1 {
        LogicalOperator::Diferent
    } else if id == 2 {
        LogicalOperator::Higher
    } else if id == 3 {
        LogicalOperator::Lower
    } else if id == 4 {
        LogicalOperator::HigherEquality
    } else if id == 5 {
        LogicalOperator::LowerEquality
    } else if id == 6 {
        LogicalOperator::StringContains
    } else if id == 7 {
        LogicalOperator::StringContainsInsensitive
    } else {
        LogicalOperator::StringRegex
    }
}

impl LogicalOperator {
    pub fn id(&self) -> (r: u8)
        ensures
            r == operator_id(*self),
            r <= 8,
            operator_of(r) == *self,
    {
        match self {
            LogicalOperator::Equal => 0,
            LogicalOperator::Diferent => 1,
            LogicalOperator::Higher => 2,
            LogicalOperator::Lower => 3,
            LogicalOperator::HigherEquality => 4,
            LogicalOperator::LowerEquality => 5,
            LogicalOperator::StringContains => 6,
            LogicalOperator::StringContainsInsensitive => 7,
            LogicalOperator::StringRegex => 8,
        }
    }

    pub fn from_id(id: u8) -> (r: Result<LogicalOperator, Error>)
        ensures
            match r {
                Ok(op) => id <= 8 && op == operator_of(id) && operator_id(op) == id,
                Err(e) => id > 8 && e.spec_kind() == ErrorKind::InvalidInput,
            },
    {
        if id == 0 {
            Ok(LogicalOperator::Equal)
        } else if id == 1 {
            Ok(LogicalOperator::Diferent)
        } else if id == 2 {
            Ok(LogicalOperator::Higher)
        } else if id == 3 {
            Ok(LogicalOperator::Lower)
        } else if id == 4 {
            Ok(LogicalOperator::HigherEquality)
        } else if id == 5 {
            Ok(LogicalOperator::LowerEquality)
        } else if id == 6 {
            Ok(LogicalOperator::StringContains)
        } else if id == 7 {
            Ok(LogicalOperator::StringContainsInsensitive)
        } else if id == 8 {
            Ok(LogicalOperator::StringRegex)
        } else {
            Err(Error::new(ErrorKind::InvalidInput, "Invalid LogicalOperator ID"))
        }
    }
}

} // verus!
