use vstd::prelude::*;

use crate::byteops::copy_bytes;
use crate::errors::InvalidName;

verus! {

/// A name may serve as an alias exactly when it denotes one normal path
/// segment: non-empty, not `.` or `..`, and free of separators and NUL bytes.
pub open spec fn valid_name(s: Seq<u8>) -> bool {
    &&& s.len() > 0
    &&& s != seq![46u8]
    &&& s != seq![46u8, 46u8]
    &&& forall|i: int| 0 <= i < s.len() ==> s[i] != 47u8 && s[i] != 92u8 && s[i] != 0u8
}

/// Decides whether a candidate name consists of exactly one normal path
/// component, so that it can never escape the store's namespace.
pub fn path_is_valid(name: &Vec<u8>) -> (ok: bool)
    ensures
        ok == valid_name(name@),
{
    if name.len() == 0 {
        return false;
    }
    if name.len() == 1 && name[0] == 46u8 {
        proof {
            assert(name@ =~= seq![46u8]);
        }
        return false;
    }
    if name.len() == 2 && name[0] == 46u8 && name[1] == 46u8 {
        proof {
            assert(name@ =~= seq![46u8, 46u8]);
        }
        return false;
    }
    let mut i: usize = 0;
    while i < name.len()
        invariant
            0 <= i <= name@.len(),
            forall|j: int| 0 <= j < i ==> name@[j] != 47u8 && name@[j] != 92u8 && name@[j] != 0u8,
        decreases name@.len() - i,
    {
        let c = name[i];
        if c == 47u8 || c == 92u8 || c == 0u8 {
            return false;
        }
        i += 1;
    }
    proof {
        if name@ == seq![46u8] {
            assert(name@.len() == 1 && name@[0] == 46u8);
        }
        if name@ == seq![46u8, 46u8] {
            assert(name@.len() == 2 && name@[0] == 46u8);
        }
    }
    true
}

/// A name that passed validation; only such names enter the alias index.
pub struct ValidatedName {
    pub bytes: Vec<u8>,
}

impl ValidatedName {
    /// The validated name is well formed: its bytes satisfy `valid_name`.
    pub open spec fn wf(&self) -> bool {
        valid_name(self.bytes@)
    }
}

/// Checks a candidate name and, when it is acceptable, wraps a copy of it as
/// a `ValidatedName`; rejected names leave no trace.
pub fn validate(name: &Vec<u8>) -> (r: Result<ValidatedName, InvalidName>)
    ensures
        r is Ok <==> valid_name(name@),
        r matches Ok(v) ==> v.wf() && v.bytes@ == name@,
{
    if path_is_valid(name) {
        Ok(ValidatedName { bytes: copy_bytes(name) })
    } else {
        Err(InvalidName)
    }
}

} // verus!
