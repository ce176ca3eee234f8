//! The foreign-function registry: a fixed catalog of host functions
//! reachable from bytecode, keyed by small integer ids. The catalog
//! holds one entry, id 0: `println(String) -> Void`. Calls are
//! resolved and their effect described as data; the host performs the
//! writing.

use vstd::prelude::*;

use crate::errors::VmError;
use crate::utils::str_eq;

verus! {

/// The argument and return types a foreign function can declare.
#[derive(Clone, Copy, Debug, PartialEq, Eq, Structural)]
pub enum FFIType {
    I32,
    I64,
    String,
    Void,
}

/// A value crossing the foreign boundary.
#[derive(Debug)]
pub enum FFIValue {
    I32(i32),
    I64(i64),
    String(String),
    Void,
}

/// What a foreign call produced: its return value, and a line for
/// the host to write out, if the function asked for one.
pub struct FFIOutcome {
    pub value: FFIValue,
    pub output: Option<String>,
}

/// A foreign function's signature.
pub struct FFIFunction {
    pub name: String,
    pub arguments: Vec<FFIType>,
    pub return_type: FFIType,
}

impl FFIFunction {
    /// Builds a signature from its parts.
    pub fn new(name: &str, arguments: Vec<FFIType>, return_type: FFIType) -> (r: FFIFunction)
        ensures
            r.name@ == name@,
            r.arguments == arguments,
            r.return_type == return_type,
    {
        FFIFunction { name: name.to_owned(), arguments, return_type }
    }

    /// The signature of `println`: one string argument, no return.
    pub fn println() -> (r: FFIFunction)
        ensures
            r.name@ == "println"@,
            r.arguments@ =~= seq![FFIType::String],
            r.return_type == FFIType::Void,
    {
        let mut arguments: Vec<FFIType> = Vec::new();
        arguments.push(FFIType::String);
        Self::new("println", arguments, FFIType::Void)
    }

    /// Looks an id up in the catalog.
    pub fn find(index: &usize) -> (r: Option<FFIFunction>)
        ensures
            *index == 0 ==> (r matches Some(f) && f.name@ == "println"@ && f.arguments@ =~= seq![
                FFIType::String,
            ] && f.return_type == FFIType::Void),
            *index != 0 ==> r is None,
    {
        match index {
            0 => Some(Self::println()),
            _ => None,
        }
    }

    /// Looks a name up in the catalog and returns its id.
    pub fn get_index(name: &str) -> (r: Option<usize>)
        ensures
            name@ == "println"@ ==> r == Some(0usize),
            name@ != "println"@ ==> r is None,
    {
        if str_eq(name, "println") {
            Some(0)
        } else {
            None
        }
    }

    /// Resolves the call: checks the name and arguments and returns
    /// the outcome, with the line to write for `println`.
    pub fn call(&self, arguments: Vec<FFIValue>) -> (r: Result<FFIOutcome, VmError>)
        ensures
            self.name@ != "println"@ ==> r == Err::<FFIOutcome, VmError>(VmError::FFIUnknown),
            self.name@ == "println"@ ==> {
                if arguments@.len() >= 1 && arguments@[0] is String {
                    (r matches Ok(o) && o.value is Void && (o.output matches Some(s) && s@
                        == arguments@[0]->String_0@))
                } else {
                    r == Err::<FFIOutcome, VmError>(VmError::FFIArgument)
                }
            },
    {
        if str_eq(self.name.as_str(), "println") {
            if arguments.len() < 1 {
                return Err(VmError::FFIArgument);
            }
            let mut arguments = arguments;
            let first = arguments.remove(0);
            match first {
                FFIValue::String(output) => Ok(
                    FFIOutcome { value: FFIValue::Void, output: Some(output) },
                ),
                _ => Err(VmError::FFIArgument),
            }
        } else {
            Err(VmError::FFIUnknown)
        }
    }
}

} // verus!
