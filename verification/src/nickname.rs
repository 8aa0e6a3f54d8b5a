//! Nickname admission: an explicit allow-list, length bounds, and
//! banned patterns.

use vstd::prelude::*;
use vstd::string::StringExecFns;
use vstd::string::StringSliceAdditionalSpecFns;
use vstd::utf8::encode_utf8;
use vstd::utf8::valid_utf8;
use vstd::utf8::decode_utf8;

use crate::patterns::compile_check;
use crate::patterns::pattern_compiles;
use crate::patterns::pattern_matches;
use crate::patterns::try_match;
use crate::strings::all_digits;
use crate::strings::bytes_of;
use crate::strings::byte_len;
use crate::strings::bytes_to_string;
use crate::strings::digits_val;
use crate::strings::first_token;
use crate::strings::is_keyword;
use crate::strings::rest_after_token;
use crate::strings::split_first_token;
use crate::strings::str_eq;
use crate::strings::trim;
use crate::strings::trim_bytes;

verus! {

/// The mathematical value of a [`NicknameFilteringConfig`].
#[verifier::ext_equal]
pub struct NicknameFilterView {
    pub min_len: u8,
    pub max_len: u8,
    pub allowed: Seq<Seq<char>>,
    pub banned: Seq<Seq<char>>,
}

/// The admission decision for a nickname: an explicitly allowed
/// nickname always passes; otherwise one whose UTF-8 length falls
/// outside the bounds, or that matches a banned pattern, is refused.
pub open spec fn nickname_allowed_spec(v: NicknameFilterView, nick: Seq<char>) -> bool {
    if v.allowed.contains(nick) {
        true
    } else if byte_len(nick) < v.min_len || byte_len(nick) > v.max_len {
        false
    } else {
        !exists|i: int|
            0 <= i < v.banned.len() && pattern_compiles(#[trigger] v.banned[i]) && pattern_matches(
                v.banned[i],
                nick,
            )
    }
}

/// Nickname admission configuration: length bounds, allow-list, and
/// banned patterns.
pub struct NicknameFilteringConfig {
    min_len: u8,
    max_len: u8,
    allowed: Vec<String>,
    banned: Vec<String>,
}

impl View for NicknameFilteringConfig {
    type V = NicknameFilterView;

    closed spec fn view(&self) -> NicknameFilterView {
        NicknameFilterView {
            min_len: self.min_len,
            max_len: self.max_len,
            allowed: self.allowed@.map_values(|s: String| s@),
            banned: self.banned@.map_values(|s: String| s@),
        }
    }
}

impl NicknameFilteringConfig {
    /// Bounds in order, and every stored pattern a valid regular
    /// expression.
    pub open spec fn wf(self) -> bool {
        &&& 1 <= self@.min_len <= self@.max_len
        &&& forall|i: int|
            0 <= i < self@.banned.len() ==> pattern_compiles(#[trigger] self@.banned[i])
    }

    /// Creates the default configuration: lengths 1 through 255,
    /// nothing allowed outright, nothing banned.
    pub fn new() -> (r: Self)
        ensures
            r@.min_len == 1,
            r@.max_len == 255,
            r@.allowed =~= Seq::<Seq<char>>::empty(),
            r@.banned =~= Seq::<Seq<char>>::empty(),
            r.wf(),
    {
        let r = NicknameFilteringConfig {
            min_len: 1,
            max_len: 255,
            allowed: Vec::new(),
            banned: Vec::new(),
        };
        proof {
            assert(r@.allowed =~= Seq::<Seq<char>>::empty());
            assert(r@.banned =~= Seq::<Seq<char>>::empty());
        }
        r
    }

    /// Merges another instance in: the bounds are overwritten by the
    /// other's, the allow-list and the banned patterns take the other's
    /// entries as well.
    pub fn append(&mut self, other: Self)
        requires
            old(self).wf(),
            other.wf(),
        ensures
            final(self).wf(),
            final(self)@.min_len == other@.min_len,
            final(self)@.max_len == other@.max_len,
            final(self)@.allowed =~= old(self)@.allowed + other@.allowed,
            final(self)@.banned =~= old(self)@.banned + other@.banned,
    {
        self.min_len = other.min_len;
        self.max_len = other.max_len;
        append_strings(&mut self.allowed, other.allowed);
        append_strings(&mut self.banned, other.banned);
        proof {
            assert(self@.allowed =~= old(self)@.allowed + other@.allowed);
            assert(self@.banned =~= old(self)@.banned + other@.banned);
            assert forall|i: int|
                0 <= i < self@.banned.len() implies pattern_compiles(
                #[trigger] self@.banned[i]) by {
                if i < old(self)@.banned.len() {
                    assert(self@.banned[i] == old(self)@.banned[i]);
                } else {
                    assert(self@.banned[i] == other@.banned[i - old(self)@.banned.len()]);
                }
            }
        }
    }

    /// Returns the minimum nickname length.
    pub fn get_min_len(&self) -> (r: u8)
        ensures
            r == self@.min_len,
    {
        self.min_len
    }

    /// Sets the minimum nickname length: refused when zero or greater
    /// than the maximum.
    pub fn set_min_len(&mut self, min_len: u8) -> (r: Result<(), String>)
        requires
            old(self).wf(),
        ensures
            final(self).wf(),
            match r {
                Ok(()) => 1 <= min_len <= old(self)@.max_len && final(self)@
                    =~= (NicknameFilterView { min_len, ..old(self)@ }),
                Err(_) => (min_len == 0 || min_len > old(self)@.max_len) && final(self)@ == old(
                    self,
                )@,
            },
    {
        if min_len == 0 || min_len > self.max_len {
            Err(String::from_str("Tried to set an impossible minimum length"))
        } else {
            self.min_len = min_len;
            Ok(())
        }
    }

    /// Returns the maximum nickname length.
    pub fn get_max_len(&self) -> (r: u8)
        ensures
            r == self@.max_len,
    {
        self.max_len
    }

    /// Sets the maximum nickname length: refused when lower than the
    /// minimum.
    pub fn set_max_len(&mut self, max_len: u8) -> (r: Result<(), String>)
        requires
            old(self).wf(),
        ensures
            final(self).wf(),
            match r {
                Ok(()) => old(self)@.min_len <= max_len && final(self)@ =~= (NicknameFilterView {
                    max_len,
                    ..old(self)@
                }),
                Err(_) => max_len < old(self)@.min_len && final(self)@ == old(self)@,
            },
    {
        if max_len < self.min_len {
            Err(String::from_str("Tried to set maximum length lower than minimum length"))
        } else {
            self.max_len = max_len;
            Ok(())
        }
    }

    /// Explicitly allows a nickname, with precedence over bounds and
    /// bans.
    pub fn allow(&mut self, nickname: String)
        requires
            old(self).wf(),
        ensures
            final(self).wf(),
            final(self)@ =~= (NicknameFilterView {
                allowed: old(self)@.allowed.push(nickname@),
                ..old(self)@
            }),
    {
        self.allowed.push(nickname);
        proof {
            assert(self@.allowed =~= old(self)@.allowed.push(nickname@));
            assert forall|i: int|
                0 <= i < self@.banned.len() implies pattern_compiles(
                #[trigger] self@.banned[i]) by {
                assert(self@.banned[i] == old(self)@.banned[i]);
            }
        }
    }

    /// Bans nicknames matching a pattern; refused when the pattern is
    /// not a valid regular expression.
    pub fn ban(&mut self, pattern: String) -> (r: Result<(), String>)
        requires
            old(self).wf(),
        ensures
            final(self).wf(),
            match r {
                Ok(()) => pattern_compiles(pattern@) && final(self)@ =~= (NicknameFilterView {
                    banned: old(self)@.banned.push(pattern@),
                    ..old(self)@
                }),
                Err(_) => !pattern_compiles(pattern@) && final(self)@ == old(self)@,
            },
    {
        if !compile_check(pattern.as_str()) {
            return Err(String::from_str("Could not parse the given pattern"));
        }
        self.banned.push(pattern);
        proof {
            assert(self@.banned =~= old(self)@.banned.push(self.banned@.last()@));
            assert forall|i: int|
                0 <= i < self@.banned.len() implies pattern_compiles(
                #[trigger] self@.banned[i]) by {
                if i < old(self)@.banned.len() {
                    assert(self@.banned[i] == old(self)@.banned[i]);
                }
            }
        }
        Ok(())
    }

    /// Returns the allow-listed nicknames.
    pub fn get_allowed_nicknames(&self) -> (r: &Vec<String>)
        ensures
            r@.map_values(|s: String| s@) == self@.allowed,
    {
        &self.allowed
    }

    /// Returns the banned patterns, as their source texts.
    pub fn get_banned_patterns(&self) -> (r: &Vec<String>)
        ensures
            r@.map_values(|s: String| s@) == self@.banned,
    {
        &self.banned
    }

    /// The admission decision for one nickname.
    pub fn is_allowed(&self, nick: &str) -> (r: bool)
        ensures
            r == nickname_allowed_spec(self@, nick@),
    {
        let mut i: usize = 0;
        while i < self.allowed.len()
            invariant
                0 <= i <= self@.allowed.len(),
                self@.allowed.len() == self.allowed@.len(),
                forall|j: int| 0 <= j < i ==> #[trigger] self@.allowed[j] != nick@,
            decreases self@.allowed.len() - i,
        {
            proof {
                assert(self@.allowed[i as int] == self.allowed@[i as int]@);
            }
            if str_eq(self.allowed[i].as_str(), nick) {
                proof {
                    assert(self@.allowed[i as int] == nick@);
                }
                return true;
            }
            i += 1;
        }
        proof {
            if self@.allowed.contains(nick@) {
                let j = choose|j: int| 0 <= j < self@.allowed.len() && self@.allowed[j] == nick@;
                assert(self@.allowed[j] != nick@);
            }
        }
        let len = nick.len();
        if len < self.min_len as usize || len > self.max_len as usize {
            return false;
        }
        let mut i: usize = 0;
        while i < self.banned.len()
            invariant
                0 <= i <= self@.banned.len(),
                self@.banned.len() == self.banned@.len(),
                !self@.allowed.contains(nick@),
                self@.min_len <= byte_len(nick@) <= self@.max_len,
                forall|j: int|
                    0 <= j < i ==> !(pattern_compiles(#[trigger] self@.banned[j])
                        && pattern_matches(self@.banned[j], nick@)),
            decreases self@.banned.len() - i,
        {
            proof {
                assert(self@.banned[i as int] == self.banned@[i as int]@);
            }
            match try_match(self.banned[i].as_str(), nick) {
                Some(true) => {
                    return false;
                },
                _ => {},
            }
            i += 1;
        }
        proof {
            if exists|j: int|
                0 <= j < self@.banned.len() && pattern_compiles(#[trigger] self@.banned[j])
                    && pattern_matches(self@.banned[j], nick@) {
                let j = choose|j: int|
                    0 <= j < self@.banned.len() && pattern_compiles(#[trigger] self@.banned[j])
                        && pattern_matches(self@.banned[j], nick@);
                assert(!(pattern_compiles(self@.banned[j]) && pattern_matches(
                    self@.banned[j],
                    nick@,
                )));
            }
        }
        true
    }
}

/// What one `nickname` sub-command line does to a configuration: the
/// new value on success, `None` on a syntax error. The line is `allow
/// <nick>`, `ban <pattern>`, `min-length <n>` or `max-length <n>`; an
/// empty line does nothing.
#[verifier::opaque]
pub open spec fn nickname_line_effect(v: NicknameFilterView, line: Seq<u8>) -> Option<
    NicknameFilterView,
> {
    let t = trim(line);
    let cmd = first_token(t);
    let arg = rest_after_token(t);
    if t.len() == 0 {
        Some(v)
    } else if cmd == bytes_of("allow") {
        if arg.len() > 0 && valid_utf8(arg) {
            Some(NicknameFilterView { allowed: v.allowed.push(decode_utf8(arg)), ..v })
        } else {
            None
        }
    } else if cmd == bytes_of("ban") {
        if arg.len() > 0 && valid_utf8(arg) && pattern_compiles(decode_utf8(arg)) {
            Some(NicknameFilterView { banned: v.banned.push(decode_utf8(arg)), ..v })
        } else {
            None
        }
    } else if cmd == bytes_of("min-length") {
        if all_digits(arg) && 1 <= digits_val(arg) <= 255 && digits_val(arg) <= v.max_len {
            Some(NicknameFilterView { min_len: digits_val(arg) as u8, ..v })
        } else {
            None
        }
    } else if cmd == bytes_of("max-length") {
        if all_digits(arg) && 1 <= digits_val(arg) <= 255 && v.min_len <= digits_val(arg) {
            Some(NicknameFilterView { max_len: digits_val(arg) as u8, ..v })
        } else {
            None
        }
    } else {
        None
    }
}

impl NicknameFilteringConfig {
    /// Processes one `nickname` sub-command line of a configuration
    /// file. On a syntax error the configuration is unchanged.
    pub fn process_line(&mut self, line: &[u8]) -> (r: Result<(), String>)
        requires
            old(self).wf(),
        ensures
            final(self).wf(),
            match r {
                Ok(()) => nickname_line_effect(old(self)@, line@) == Some(final(self)@),
                Err(_) => nickname_line_effect(old(self)@, line@) is None && final(self)@ == old(
                    self,
                )@,
            },
    {
        proof {
            reveal(nickname_line_effect);
        }
        let t = trim_bytes(line);
        if t.len() == 0 {
            return Ok(());
        }
        let (cmd, arg) = split_first_token(t.as_slice());
        if is_keyword(cmd.as_slice(), "allow") {
            if arg.len() == 0 {
                return Err(String::from_str("A nickname was expected after `nickname allow`"));
            }
            match bytes_to_string(arg) {
                Some(nick) => {
                    proof {
                        vstd::utf8::encode_utf8_decode_utf8(nick@);
                    }
                    self.allow(nick);
                    Ok(())
                },
                None => Err(String::from_str("The nickname is not valid text")),
            }
        } else if is_keyword(cmd.as_slice(), "ban") {
            if arg.len() == 0 {
                return Err(String::from_str("A pattern was expected after `nickname ban`"));
            }
            match bytes_to_string(arg) {
                Some(pattern) => {
                    proof {
                        vstd::utf8::encode_utf8_decode_utf8(pattern@);
                    }
                    self.ban(pattern)
                },
                None => Err(String::from_str("The pattern is not valid text")),
            }
        } else if is_keyword(cmd.as_slice(), "min-length") {
            match crate::strings::parse_uint(arg.as_slice(), 255) {
                Some(v) => {
                    if v == 0 {
                        return Err(
                            String::from_str("A number from 1 to 255 was expected"),
                        );
                    }
                    self.set_min_len(v as u8)
                },
                None => Err(String::from_str("A number from 1 to 255 was expected")),
            }
        } else if is_keyword(cmd.as_slice(), "max-length") {
            match crate::strings::parse_uint(arg.as_slice(), 255) {
                Some(v) => {
                    if v == 0 {
                        return Err(
                            String::from_str("A number from 1 to 255 was expected"),
                        );
                    }
                    self.set_max_len(v as u8)
                },
                None => Err(String::from_str("A number from 1 to 255 was expected")),
            }
        } else {
            Err(String::from_str("Unknown `nickname` sub-command"))
        }
    }
}

/// Appends every string of `src` to `dst`.
pub(crate) fn append_strings(dst: &mut Vec<String>, src: Vec<String>)
    ensures
        final(dst)@.map_values(|s: String| s@) =~= old(dst)@.map_values(|s: String| s@)
            + src@.map_values(|s: String| s@),
{
    let ghost src0 = src@;
    let mut src = src;
    let mut i: usize = 0;
    while i < src.len()
        invariant
            0 <= i <= src0.len(),
            src@ == src0,
            i <= dst@.len(),
            dst@.len() == old(dst)@.len() + i,
            forall|j: int| 0 <= j < old(dst)@.len() ==> dst@[j] == old(dst)@[j],
            forall|j: int|
                old(dst)@.len() <= j < dst@.len() ==> dst@[j] == src0[j - old(dst)@.len()],
        decreases src0.len() - i,
    {
        let s = src[i].clone();
        dst.push(s);
        i += 1;
    }
    proof {
        assert(dst@.map_values(|s: String| s@) =~= old(dst)@.map_values(|s: String| s@)
            + src0.map_values(|s: String| s@));
    }
}

} // verus!
