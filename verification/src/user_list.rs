//! The user directory: nickname to password hash and delivery cursor.
//!
//! The directory key is the nickname; entries are inserted only by a
//! successful registration and never removed. The delivery cursor
//! (`last_sent_msg_id`) only moves forward.

use vstd::prelude::*;
use vstd::pervasive::VecAdditionalExecFns;
use vstd::string::StringSliceAdditionalSpecFns;
use vstd::utf8::encode_utf8;

use crate::strings::str_eq;

use crate::error::ErrorKind;
use crate::user::UserInfo;
use crate::user::is_valid_nickname;
use crate::user::valid_nickname;

verus! {

/// The mathematical value of one directory entry.
pub struct UserRecord {
    pub nickname: Seq<char>,
    pub password_hash: Seq<u8>,
    pub last_delivered: Option<u64>,
}

/// One step of the password hash: fold the next byte into the 64-bit
/// accumulator (the offset-basis/prime scheme of FNV-1a).
pub open spec fn hash_step(acc: u64, byte: u8) -> u64 {
    ((((acc ^ (byte as u64)) as int) * 0x100000001b3) % 0x10000000000000000) as u64
}

/// The accumulator after folding all of `bytes` into `acc`, front first.
pub open spec fn hash_fold(acc: u64, bytes: Seq<u8>) -> u64
    decreases bytes.len(),
{
    if bytes.len() == 0 {
        acc
    } else {
        hash_fold(hash_step(acc, bytes[0]), bytes.drop_first())
    }
}

/// The configured password hash over a byte string: the 64-bit
/// accumulator of [`hash_fold`], written out as eight big-endian bytes.
/// A pluggable placeholder, not a hardened KDF.
pub open spec fn hash_bytes(bytes: Seq<u8>) -> Seq<u8> {
    let h = hash_fold(0xcbf29ce484222325u64, bytes);
    seq![
        ((h >> 56) & 0xff) as u8,
        ((h >> 48) & 0xff) as u8,
        ((h >> 40) & 0xff) as u8,
        ((h >> 32) & 0xff) as u8,
        ((h >> 24) & 0xff) as u8,
        ((h >> 16) & 0xff) as u8,
        ((h >> 8) & 0xff) as u8,
        (h & 0xff) as u8,
    ]
}

/// Computes the configured password hash over the UTF-8 bytes of
/// `password`. Hashing happens inside the directory operations so that
/// plaintext passwords do not outlive the call.
pub fn hash_password(password: &str) -> (r: Vec<u8>)
    ensures
        r@ == hash_bytes(password.spec_bytes()),
{
    let bytes = password.as_bytes();
    let ghost all = bytes@;
    let mut acc: u64 = 0xcbf29ce484222325;
    let mut i: usize = 0;
    proof {
        assert(all.skip(0) =~= all);
    }
    while i < bytes.len()
        invariant
            0 <= i <= all.len(),
            bytes@ == all,
            hash_fold(acc, all.skip(i as int)) == hash_fold(0xcbf29ce484222325u64, all),
        decreases all.len() - i,
    {
        let b = bytes[i];
        let mixed: u64 = acc ^ (b as u64);
        let wide: u128 = (mixed as u128) * 0x100000001b3;
        let next: u64 = (wide % 0x10000000000000000u128) as u64;
        proof {
            assert(next == hash_step(acc, b));
            assert(all.skip(i as int)[0] == all[i as int]);
            assert(all.skip(i as int).drop_first() =~= all.skip(i as int + 1));
        }
        acc = next;
        i += 1;
    }
    proof {
        assert(all.skip(all.len() as int) =~= Seq::<u8>::empty());
    }
    let mut out: Vec<u8> = Vec::new();
    out.push(((acc >> 56) & 0xff) as u8);
    out.push(((acc >> 48) & 0xff) as u8);
    out.push(((acc >> 40) & 0xff) as u8);
    out.push(((acc >> 32) & 0xff) as u8);
    out.push(((acc >> 24) & 0xff) as u8);
    out.push(((acc >> 16) & 0xff) as u8);
    out.push(((acc >> 8) & 0xff) as u8);
    out.push((acc & 0xff) as u8);
    proof {
        assert(out@ =~= hash_bytes(password.spec_bytes()));
    }
    out
}

/// True when `users` holds an entry for `nick`.
pub open spec fn contains_nick(users: Seq<UserRecord>, nick: Seq<char>) -> bool {
    exists|i: int| 0 <= i < users.len() && users[i].nickname == nick
}

/// The index of the entry for `nick` in `users`.
pub open spec fn index_of_nick(users: Seq<UserRecord>, nick: Seq<char>) -> int {
    choose|i: int| 0 <= i < users.len() && users[i].nickname == nick
}

/// The entry for `nick` in `users`.
pub open spec fn record_of(users: Seq<UserRecord>, nick: Seq<char>) -> UserRecord
    recommends
        contains_nick(users, nick),
{
    users[index_of_nick(users, nick)]
}

/// No two entries share a nickname.
pub open spec fn nicks_unique(users: Seq<UserRecord>) -> bool {
    forall|i: int, j: int|
        0 <= i < j < users.len() ==> users[i].nickname != users[j].nickname
}

/// The user directory: every registered user, keyed by nickname.
pub struct UserList {
    users: Vec<UserInfo>,
}

impl View for UserList {
    type V = Seq<UserRecord>;

    closed spec fn view(&self) -> Seq<UserRecord> {
        self.users@.map_values(
            |u: UserInfo|
                UserRecord {
                    nickname: u.nickname@,
                    password_hash: u.encrypted_password@,
                    last_delivered: u.last_sent_msg_id,
                },
        )
    }
}

impl UserList {
    /// Uniqueness of nicknames: the well-formedness every operation
    /// establishes and preserves.
    pub open spec fn wf(self) -> bool {
        nicks_unique(self@)
    }

    /// Creates an empty directory.
    pub fn new() -> (r: Self)
        ensures
            r@ =~= Seq::<UserRecord>::empty(),
            r.wf(),
    {
        UserList { users: Vec::new() }
    }

    /// Finds the index of the entry for `nickname`, if any.
    fn find(&self, nickname: &str) -> (r: Option<usize>)
        ensures
            match r {
                Some(i) => 0 <= i < self@.len() && self@[i as int].nickname == nickname@,
                None => !contains_nick(self@, nickname@),
            },
    {
        let mut i: usize = 0;
        while i < self.users.len()
            invariant
                0 <= i <= self@.len(),
                self@.len() == self.users@.len(),
                forall|j: int|
                    0 <= j < i ==> #[trigger] self@[j].nickname != nickname@,
                forall|j: int|
                    0 <= j < self.users@.len() ==> self@[j].nickname == self.users@[j].nickname@,
            decreases self@.len() - i,
        {
            if str_eq(self.users[i].nickname.as_str(), nickname) {
                return Some(i);
            }
            i += 1;
        }
        None
    }

    /// Returns whether a user with the given nickname is registered.
    pub fn user_exists(&self, nickname: &str) -> (r: bool)
        ensures
            r == contains_nick(self@, nickname@),
    {
        self.find(nickname).is_some()
    }

    /// Registers a new user: hashes the password and inserts the entry.
    ///
    /// Refuses a nickname that is already taken (`AlreadyExists`) and,
    /// as a defensive re-check of the structural policy, one that is not
    /// printable ASCII (`PermissionDenied`). On success the new entry has
    /// the hash of the password and no delivery cursor yet, and every
    /// prior entry is unchanged.
    pub fn add_user(&mut self, nickname: String, password: String) -> (r: Result<(), ErrorKind>)
        requires
            old(self).wf(),
        ensures
            final(self).wf(),
            match r {
                Ok(()) => {
                    &&& !contains_nick(old(self)@, nickname@)
                    &&& valid_nickname(encode_utf8(nickname@))
                    &&& final(self)@ =~= old(self)@.push(
                        UserRecord {
                            nickname: nickname@,
                            password_hash: hash_bytes(encode_utf8(password@)),
                            last_delivered: None,
                        },
                    )
                },
                Err(ErrorKind::AlreadyExists) => {
                    &&& contains_nick(old(self)@, nickname@)
                    &&& *final(self) == *old(self)
                },
                Err(ErrorKind::PermissionDenied) => {
                    &&& !valid_nickname(encode_utf8(nickname@))
                    &&& *final(self) == *old(self)
                },
                _ => false,
            },
    {
        if !is_valid_nickname(nickname.as_str()) {
            return Err(ErrorKind::PermissionDenied);
        }
        if self.find(nickname.as_str()).is_some() {
            return Err(ErrorKind::AlreadyExists);
        }
        let encrypted_password = hash_password(password.as_str());
        let user = UserInfo { nickname, encrypted_password, last_sent_msg_id: None };
        self.users.push(user);
        proof {
            assert(self@ =~= old(self)@.push(self@[old(self)@.len() as int]));
        }
        Ok(())
    }

    /// Returns the delivery cursor of the given user: the id of the last
    /// message whose delivery was acknowledged, `None` before the first.
    pub fn get_last_sent_msg_id(&self, nickname: &str) -> (r: Option<u64>)
        requires
            contains_nick(self@, nickname@),
            self.wf(),
        ensures
            r == record_of(self@, nickname@).last_delivered,
    {
        let i = self.find(nickname).unwrap();
        proof {
            lemma_unique_index(self@, nickname@, i as int);
        }
        self.users[i].last_sent_msg_id
    }

    /// Moves the delivery cursor of the given user forward to `id`.
    ///
    /// Monotone: an `id` not strictly greater than the current cursor is
    /// refused (`InvalidInput`), as is an unknown user (`NotFound`); the
    /// cursor never moves backwards.
    pub fn set_last_sent_msg_id(&mut self, nickname: &str, id: u64) -> (r: Result<(), ErrorKind>)
        requires
            old(self).wf(),
        ensures
            final(self).wf(),
            match r {
                Ok(()) => {
                    &&& contains_nick(old(self)@, nickname@)
                    &&& match record_of(old(self)@, nickname@).last_delivered {
                        Some(prev) => prev < id,
                        None => true,
                    }
                    &&& final(self)@ =~= old(self)@.update(
                        index_of_nick(old(self)@, nickname@),
                        UserRecord {
                            nickname: nickname@,
                            password_hash: record_of(old(self)@, nickname@).password_hash,
                            last_delivered: Some(id),
                        },
                    )
                },
                Err(ErrorKind::NotFound) => {
                    &&& !contains_nick(old(self)@, nickname@)
                    &&& *final(self) == *old(self)
                },
                Err(ErrorKind::InvalidInput) => {
                    &&& contains_nick(old(self)@, nickname@)
                    &&& match record_of(old(self)@, nickname@).last_delivered {
                        Some(prev) => id <= prev,
                        None => false,
                    }
                    &&& *final(self) == *old(self)
                },
                _ => false,
            },
    {
        let i = match self.find(nickname) {
            Some(i) => i,
            None => {
                return Err(ErrorKind::NotFound);
            },
        };
        proof {
            lemma_unique_index(self@, nickname@, i as int);
        }
        match self.users[i].last_sent_msg_id {
            Some(prev) => {
                if id <= prev {
                    return Err(ErrorKind::InvalidInput);
                }
            },
            None => {},
        }
        let nick_owned = self.users[i].nickname.clone();
        let hash_owned = self.users[i].encrypted_password.clone();
        let user = UserInfo {
            nickname: nick_owned,
            encrypted_password: hash_owned,
            last_sent_msg_id: Some(id),
        };
        self.users.set(i, user);
        proof {
            assert(self@ =~= old(self)@.update(
                index_of_nick(old(self)@, nickname@),
                UserRecord {
                    nickname: nickname@,
                    password_hash: record_of(old(self)@, nickname@).password_hash,
                    last_delivered: Some(id),
                },
            ));
        }
        Ok(())
    }

    /// Returns whether the candidate password matches the stored hash of
    /// the given user. `false` both for an unknown user and for a
    /// mismatched password; the two are indistinguishable to the caller.
    pub fn verify_password(&self, nickname: &str, candidate_passwd: String) -> (r: bool)
        requires
            self.wf(),
        ensures
            r == (contains_nick(self@, nickname@) && record_of(self@, nickname@).password_hash
                == hash_bytes(encode_utf8(candidate_passwd@))),
    {
        let candidate_hash = hash_password(candidate_passwd.as_str());
        match self.find(nickname) {
            Some(i) => {
                proof {
                    lemma_unique_index(self@, nickname@, i as int);
                }
                let stored = &self.users[i].encrypted_password;
                let r = crate::strings::slice_eq_bytes(stored.as_slice(), candidate_hash.as_slice());
                proof {
                    if stored@ == candidate_hash@ {
                        assert(record_of(self@, nickname@).password_hash == hash_bytes(
                            encode_utf8(candidate_passwd@),
                        ));
                    }
                }
                r
            },
            None => false,
        }
    }
}

/// With unique nicknames, any index holding `nick` is the chosen one.
proof fn lemma_unique_index(users: Seq<UserRecord>, nick: Seq<char>, i: int)
    requires
        nicks_unique(users),
        0 <= i < users.len(),
        users[i].nickname == nick,
    ensures
        index_of_nick(users, nick) == i,
        record_of(users, nick) == users[i],
        contains_nick(users, nick),
{
    assert(contains_nick(users, nick));
    let j = index_of_nick(users, nick);
    if i < j {
        assert(users[i].nickname != users[j].nickname);
    } else if j < i {
        assert(users[j].nickname != users[i].nickname);
    }
}


/// Order on delivery cursors: absent before every id, ids by value.
pub open spec fn cursor_leq(a: Option<u64>, b: Option<u64>) -> bool {
    match a {
        None => true,
        Some(x) => b matches Some(y) && x <= y,
    }
}

/// Law: the delivery cursor is monotone non-decreasing. The one write
/// [`UserList::set_last_sent_msg_id`] performs — moving one user's
/// cursor to an id strictly greater than its current value — leaves no
/// user of the directory with a smaller cursor than before.
pub proof fn lemma_cursor_monotone(users: Seq<UserRecord>, nick: Seq<char>, id: u64)
    requires
        nicks_unique(users),
        contains_nick(users, nick),
        match record_of(users, nick).last_delivered {
            Some(prev) => prev < id,
            None => true,
        },
    ensures
        ({
            let updated = users.update(
                index_of_nick(users, nick),
                UserRecord {
                    nickname: nick,
                    password_hash: record_of(users, nick).password_hash,
                    last_delivered: Some(id),
                },
            );
            forall|n: Seq<char>|
                contains_nick(users, n) ==> cursor_leq(
                    record_of(users, n).last_delivered,
                    #[trigger] record_of(updated, n).last_delivered,
                )
        }),
{
    let idx = index_of_nick(users, nick);
    let updated = users.update(
        idx,
        UserRecord {
            nickname: nick,
            password_hash: record_of(users, nick).password_hash,
            last_delivered: Some(id),
        },
    );
    assert forall|n: Seq<char>| contains_nick(users, n) implies cursor_leq(
        record_of(users, n).last_delivered,
        #[trigger] record_of(updated, n).last_delivered,
    ) by {
        let i = index_of_nick(users, n);
        assert(0 <= i < users.len() && users[i].nickname == n);
        assert(updated[i].nickname == n);
        assert(nicks_unique(updated)) by {
            assert forall|a: int, b: int|
                0 <= a < b < updated.len() implies updated[a].nickname != updated[b].nickname by {
                assert(users[a].nickname != users[b].nickname);
                assert(updated[a].nickname == users[a].nickname);
                assert(updated[b].nickname == users[b].nickname);
            }
        }
        lemma_unique_index(updated, n, i);
        if i == idx {
            assert(n == nick);
            assert(record_of(updated, n).last_delivered == Some(id));
        } else {
            assert(updated[i] == users[i]);
        }
    }
}

} // verus!
