//! Configuration documents as trees of values with their positions.

use crate::text::str_eq;
use vstd::prelude::*;

verus! {

/// A position in a document.
#[derive(Clone, Copy, Debug, PartialEq, Eq, Structural)]
pub struct Mark {
    pub line: usize,
    pub column: usize,
}

/// What a document holds at some position.
#[derive(Debug)]
pub enum CfgValue {
    Null,
    Bool(bool),
    Int(i64),
    /// Any other scalar, as it is written.
    Other(String),
    Text(String),
    List(Vec<CfgNode>),
    Object(Vec<(String, CfgNode)>),
}

#[derive(Debug)]
pub struct CfgNode {
    pub mark: Mark,
    pub value: CfgValue,
}

/// What a value was expected to be.
#[derive(Clone, Copy, Debug, PartialEq, Eq, Structural)]
pub enum Shape {
    Mapping,
    List,
    Text,
    Number,
    Boolean,
}

/// A value of another shape than the one that is needed.
#[derive(Clone, Copy, Debug, PartialEq, Eq, Structural)]
pub struct Mismatch {
    pub mark: Mark,
    pub expected: Shape,
}

/// The first value of `key`.
pub open spec fn entry<V>(fields: Seq<(String, V)>, key: Seq<char>) -> Option<V>
    decreases fields.len(),
{
    if fields.len() == 0 {
        None
    } else if fields[0].0@ == key {
        Some(fields[0].1)
    } else {
        entry(fields.skip(1), key)
    }
}

impl CfgNode {
    pub open spec fn mismatch(self, expected: Shape) -> Mismatch {
        Mismatch { mark: self.mark, expected }
    }

    pub open spec fn fields(self) -> Seq<(String, CfgNode)> {
        match self.value {
            CfgValue::Object(fields) => fields@,
            _ => Seq::empty(),
        }
    }

    pub open spec fn items(self) -> Seq<CfgNode> {
        match self.value {
            CfgValue::List(items) => items@,
            _ => Seq::empty(),
        }
    }

    /// The text of a string value.
    pub open spec fn text(self) -> Seq<char> {
        match self.value {
            CfgValue::Text(s) => s@,
            _ => Seq::empty(),
        }
    }

    /// The number of an integer value that is an index or a count.
    pub open spec fn count(self) -> Option<usize> {
        match self.value {
            CfgValue::Int(n) => if 0 <= n <= usize::MAX {
                Some(n as usize)
            } else {
                None
            },
            _ => None,
        }
    }

    pub fn as_obj(&self) -> (r: Result<&Vec<(String, CfgNode)>, Mismatch>)
        ensures
            match r {
                Ok(fields) => self.value is Object && fields@ == self.fields(),
                Err(e) => !(self.value is Object) && e == self.mismatch(Shape::Mapping),
            },
    {
        match &self.value {
            CfgValue::Object(fields) => Ok(fields),
            _ => Err(Mismatch { mark: self.mark, expected: Shape::Mapping }),
        }
    }

    pub fn as_arr(&self) -> (r: Result<&Vec<CfgNode>, Mismatch>)
        ensures
            match r {
                Ok(items) => self.value is List && items@ == self.items(),
                Err(e) => !(self.value is List) && e == self.mismatch(Shape::List),
            },
    {
        match &self.value {
            CfgValue::List(items) => Ok(items),
            _ => Err(Mismatch { mark: self.mark, expected: Shape::List }),
        }
    }

    pub fn as_str(&self) -> (r: Result<&str, Mismatch>)
        ensures
            match r {
                Ok(s) => self.value is Text && s@ == self.text(),
                Err(e) => !(self.value is Text) && e == self.mismatch(Shape::Text),
            },
    {
        match &self.value {
            CfgValue::Text(s) => Ok(s.as_str()),
            _ => Err(Mismatch { mark: self.mark, expected: Shape::Text }),
        }
    }

    pub fn as_usize(&self) -> (r: Result<usize, Mismatch>)
        ensures
            match r {
                Ok(n) => self.count() == Some(n),
                Err(e) => self.count() is None && e == self.mismatch(Shape::Number),
            },
    {
        match &self.value {
            CfgValue::Int(n) => {
                let n: i64 = *n;
                if n >= 0 && n as u64 <= usize::MAX as u64 {
                    return Ok(n as usize);
                }
            },
            _ => {},
        }
        Err(Mismatch { mark: self.mark, expected: Shape::Number })
    }

    pub fn as_bool(&self) -> (r: Result<bool, Mismatch>)
        ensures
            match r {
                Ok(b) => self.value == CfgValue::Bool(b),
                Err(e) => !(self.value is Bool) && e == self.mismatch(Shape::Boolean),
            },
    {
        match &self.value {
            CfgValue::Bool(b) => Ok(*b),
            _ => Err(Mismatch { mark: self.mark, expected: Shape::Boolean }),
        }
    }

    pub fn is_string(&self) -> (r: bool)
        ensures
            r == (self.value is Text),
    {
        match &self.value {
            CfgValue::Text(_) => true,
            _ => false,
        }
    }

    pub fn is_mapping(&self) -> (r: bool)
        ensures
            r == (self.value is Object),
    {
        match &self.value {
            CfgValue::Object(_) => true,
            _ => false,
        }
    }
}

/// Looks a field up.
pub fn find_field<'a, V>(fields: &'a Vec<(String, V)>, key: &str) -> (r: Option<&'a V>)
    ensures
        match r {
            Some(v) => entry(fields@, key@) == Some(*v),
            None => entry(fields@, key@) is None,
        },
{
    let mut i: usize = 0;
    proof {
        assert(fields@.skip(0) =~= fields@);
    }
    while i < fields.len()
        invariant
            i <= fields@.len(),
            entry(fields@, key@) == entry(fields@.skip(i as int), key@),
        decreases fields@.len() - i,
    {
        proof {
            assert(fields@.skip(i as int).skip(1) =~= fields@.skip(i + 1));
        }
        if str_eq(fields[i].0.as_str(), key) {
            return Some(&fields[i].1);
        }
        i += 1;
    }
    None
}

} // verus!
