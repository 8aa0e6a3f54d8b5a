use vstd::prelude::*;
use vstd::string::StringSliceAdditionalSpecFns;

verus! {

/// A registered user: the nickname that keys the user directory, the
/// stored password hash, and the id of the last message whose delivery
/// to this user was acknowledged (`None` until the first delivery).
pub struct UserInfo {
    pub nickname: String,
    pub encrypted_password: Vec<u8>,
    pub last_sent_msg_id: Option<u64>,
}

/// A nickname is structurally valid when it is non-empty and every byte
/// of its UTF-8 form is printable ASCII (0x20 through 0x7E).
pub open spec fn valid_nickname(bytes: Seq<u8>) -> bool {
    &&& bytes.len() > 0
    &&& forall|i: int| 0 <= i < bytes.len() ==> 0x20 <= #[trigger] bytes[i] <= 0x7e
}

/// Returns whether `candidate` is a structurally valid nickname.
pub fn is_valid_nickname(candidate: &str) -> (r: bool)
    ensures
        r == valid_nickname(candidate.spec_bytes()),
{
    let bytes = candidate.as_bytes();
    if bytes.len() == 0 {
        return false;
    }
    let mut i: usize = 0;
    while i < bytes.len()
        invariant
            0 <= i <= bytes@.len(),
            bytes@ == candidate.spec_bytes(),
            forall|j: int| 0 <= j < i ==> 0x20 <= #[trigger] bytes@[j] <= 0x7e,
        decreases bytes@.len() - i,
    {
        let b = bytes[i];
        if b < 0x20 || b > 0x7e {
            return false;
        }
        i += 1;
    }
    true
}

} // verus!
