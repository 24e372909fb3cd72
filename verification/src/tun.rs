//! The rules for the name of a tunnel device.
use vstd::prelude::*;
use vstd::string::StringSliceAdditionalSpecFns;

verus! {

/// Size of the name field of an interface request, the closing zero included.
pub const IFNAMSIZ: usize = 16;

/// Why a device name was refused.
#[derive(Debug, Copy, Clone, PartialEq, Eq, Structural)]
pub enum NameError {
    /// The name is longer than 15 bytes.
    TooLong,
    /// The name holds a zero byte.
    HasNul,
}

/// The name field of an interface request for the device `name`: its bytes,
/// then zeros up to 16 bytes. A name of more than 15 bytes, or with a zero
/// byte in it, has none.
pub open spec fn spec_request_name(name: Seq<u8>) -> Result<Seq<u8>, NameError> {
    if name.len() > IFNAMSIZ - 1 {
        Err(NameError::TooLong)
    } else if name.contains(0u8) {
        Err(NameError::HasNul)
    } else {
        Ok(name + Seq::new((IFNAMSIZ - name.len()) as nat, |i: int| 0u8))
    }
}

/// Fill the name field of an interface request for a name given as bytes.
pub fn request_name_bytes(bytes: &[u8]) -> (r: Result<[u8; 16], NameError>)
    ensures
        match spec_request_name(bytes@) {
            Ok(f) => r.is_ok() && r.unwrap()@ == f,
            Err(e) => r == Err::<[u8; 16], NameError>(e),
        },
{
    let mut field = [0u8; 16];
    // IFNAMESIZ is 16.
    if bytes.len() > IFNAMSIZ - 1 {
        return Err(NameError::TooLong);
    }
    let mut i: usize = 0;
    while i < bytes.len()
        invariant
            i <= bytes@.len(),
            bytes@.len() <= 15,
            forall|j: int| 0 <= j < i ==> field@[j] == bytes@[j] && bytes@[j] != 0,
            forall|j: int| i <= j < 16 ==> field@[j] == 0,
        decreases bytes@.len() - i,
    {
        if bytes[i] == 0 {
            assert(bytes@.contains(0u8));
            return Err(NameError::HasNul);
        }
        field[i] = bytes[i];
        i = i + 1;
    }
    assert(!bytes@.contains(0u8));
    assert(field@ =~= bytes@ + Seq::new((IFNAMSIZ - bytes@.len()) as nat, |i: int| 0u8));
    Ok(field)
}

/// Fill the name field of an interface request. No name stands for a device
/// that the system is to name, and gives a field of zeros.
pub fn request_name(name: Option<&str>) -> (r: Result<[u8; 16], NameError>)
    ensures
        match spec_request_name(
            match name {
                Some(n) => n.spec_bytes(),
                None => Seq::<u8>::empty(),
            },
        ) {
            Ok(f) => r.is_ok() && r.unwrap()@ == f,
            Err(e) => r == Err::<[u8; 16], NameError>(e),
        },
{
    match name {
        None => {
            let none: [u8; 0] = [];
            assert(none@ =~= Seq::<u8>::empty());
            request_name_bytes(none.as_slice())
        },
        Some(n) => request_name_bytes(n.as_bytes()),
    }
}

/// The length of the name in the name field of an interface request: the
/// bytes before the first zero.
pub fn name_len(field: &[u8; 16]) -> (n: usize)
    ensures
        n <= 16,
        forall|j: int| 0 <= j < n ==> field@[j] != 0,
        n < 16 ==> field@[n as int] == 0,
{
    let mut i: usize = 0;
    while i < 16
        invariant
            i <= 16,
            forall|j: int| 0 <= j < i ==> field@[j] != 0,
        decreases 16 - i,
    {
        if field[i] == 0 {
            return i;
        }
        i = i + 1;
    }
    i
}

} // verus!
