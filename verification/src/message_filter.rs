//! Message-text admission: length bounds and banned patterns.

use vstd::prelude::*;
use vstd::string::StringExecFns;
use vstd::string::StringSliceAdditionalSpecFns;
use vstd::utf8::decode_utf8;
use vstd::utf8::valid_utf8;

use crate::nickname::append_strings;
use crate::patterns::compile_check;
use crate::patterns::pattern_compiles;
use crate::patterns::pattern_matches;
use crate::patterns::try_match;
use crate::strings::all_digits;
use crate::strings::byte_len;
use crate::strings::bytes_of;
use crate::strings::bytes_to_string;
use crate::strings::digits_val;
use crate::strings::first_token;
use crate::strings::is_keyword;
use crate::strings::rest_after_token;
use crate::strings::split_first_token;
use crate::strings::trim;
use crate::strings::trim_bytes;

verus! {

/// The mathematical value of a [`MessageFilteringConfig`].
#[verifier::ext_equal]
pub struct MessageFilterView {
    pub min_len: u16,
    pub max_len: u16,
    pub banned: Seq<Seq<char>>,
}

/// The admission decision for message text: refused when its UTF-8
/// length falls outside the bounds or it matches a banned pattern.
pub open spec fn message_allowed_spec(v: MessageFilterView, text: Seq<char>) -> bool {
    if byte_len(text) < v.min_len || byte_len(text) > v.max_len {
        false
    } else {
        !exists|i: int|
            0 <= i < v.banned.len() && pattern_compiles(#[trigger] v.banned[i]) && pattern_matches(
                v.banned[i],
                text,
            )
    }
}

/// Message-text admission configuration: length bounds and banned
/// patterns.
pub struct MessageFilteringConfig {
    min_len: u16,
    max_len: u16,
    banned: Vec<String>,
}

impl View for MessageFilteringConfig {
    type V = MessageFilterView;

    closed spec fn view(&self) -> MessageFilterView {
        MessageFilterView {
            min_len: self.min_len,
            max_len: self.max_len,
            banned: self.banned@.map_values(|s: String| s@),
        }
    }
}

impl MessageFilteringConfig {
    /// Bounds in order, and every stored pattern a valid regular
    /// expression.
    pub open spec fn wf(self) -> bool {
        &&& 1 <= self@.min_len <= self@.max_len
        &&& forall|i: int|
            0 <= i < self@.banned.len() ==> pattern_compiles(#[trigger] self@.banned[i])
    }

    /// Creates the default configuration: lengths 1 through 65535,
    /// nothing banned.
    pub fn new() -> (r: Self)
        ensures
            r@.min_len == 1,
            r@.max_len == 65535,
            r@.banned =~= Seq::<Seq<char>>::empty(),
            r.wf(),
    {
        let r = MessageFilteringConfig { min_len: 1, max_len: 65535, banned: Vec::new() };
        proof {
            assert(r@.banned =~= Seq::<Seq<char>>::empty());
        }
        r
    }

    /// Merges another instance in: the bounds are overwritten by the
    /// other's, the banned patterns take the other's entries as well.
    pub fn append(&mut self, other: Self)
        requires
            old(self).wf(),
            other.wf(),
        ensures
            final(self).wf(),
            final(self)@.min_len == other@.min_len,
            final(self)@.max_len == other@.max_len,
            final(self)@.banned =~= old(self)@.banned + other@.banned,
    {
        self.min_len = other.min_len;
        self.max_len = other.max_len;
        append_strings(&mut self.banned, other.banned);
        proof {
            assert(self@.banned =~= old(self)@.banned + other@.banned);
            assert forall|i: int|
                0 <= i < self@.banned.len() implies pattern_compiles(
                #[trigger] self@.banned[i]) by {
                if i < old(self)@.banned.len() {
                    assert(self@.banned[i] == old(self)@.banned[i]);
                } else {
                    assert(self@.banned[i] == other@.banned[i - old(self)@.banned.len()]);
                }
            }
        }
    }

    /// Returns the minimum message length.
    pub fn get_min_len(&self) -> (r: u16)
        ensures
            r == self@.min_len,
    {
        self.min_len
    }

    /// Sets the minimum message length: refused when zero or greater
    /// than the maximum.
    pub fn set_min_len(&mut self, min_len: u16) -> (r: Result<(), String>)
        requires
            old(self).wf(),
        ensures
            final(self).wf(),
            match r {
                Ok(()) => 1 <= min_len <= old(self)@.max_len && final(self)@
                    =~= (MessageFilterView { min_len, ..old(self)@ }),
                Err(_) => (min_len == 0 || min_len > old(self)@.max_len) && final(self)@ == old(
                    self,
                )@,
            },
    {
        if min_len == 0 || min_len > self.max_len {
            Err(String::from_str("Tried to set an impossible minimum length"))
        } else {
            self.min_len = min_len;
            Ok(())
        }
    }

    /// Returns the maximum message length.
    pub fn get_max_len(&self) -> (r: u16)
        ensures
            r == self@.max_len,
    {
        self.max_len
    }

    /// Sets the maximum message length: refused when lower than the
    /// minimum.
    pub fn set_max_len(&mut self, max_len: u16) -> (r: Result<(), String>)
        requires
            old(self).wf(),
        ensures
            final(self).wf(),
            match r {
                Ok(()) => old(self)@.min_len <= max_len && final(self)@ =~= (MessageFilterView {
                    max_len,
                    ..old(self)@
                }),
                Err(_) => max_len < old(self)@.min_len && final(self)@ == old(self)@,
            },
    {
        if max_len < self.min_len {
            Err(String::from_str("Tried to set maximum length lower than minimum length"))
        } else {
            self.max_len = max_len;
            Ok(())
        }
    }

    /// Bans messages matching a pattern; refused when the pattern is
    /// not a valid regular expression.
    pub fn ban(&mut self, pattern: String) -> (r: Result<(), String>)
        requires
            old(self).wf(),
        ensures
            final(self).wf(),
            match r {
                Ok(()) => pattern_compiles(pattern@) && final(self)@ =~= (MessageFilterView {
                    banned: old(self)@.banned.push(pattern@),
                    ..old(self)@
                }),
                Err(_) => !pattern_compiles(pattern@) && final(self)@ == old(self)@,
            },
    {
        if !compile_check(pattern.as_str()) {
            return Err(String::from_str("Could not parse the given pattern"));
        }
        self.banned.push(pattern);
        proof {
            assert(self@.banned =~= old(self)@.banned.push(self.banned@.last()@));
            assert forall|i: int|
                0 <= i < self@.banned.len() implies pattern_compiles(
                #[trigger] self@.banned[i]) by {
                if i < old(self)@.banned.len() {
                    assert(self@.banned[i] == old(self)@.banned[i]);
                }
            }
        }
        Ok(())
    }

    /// Returns the banned patterns, as their source texts.
    pub fn get_banned_patterns(&self) -> (r: &Vec<String>)
        ensures
            r@.map_values(|s: String| s@) == self@.banned,
    {
        &self.banned
    }

    /// The admission decision for one message text.
    pub fn is_allowed(&self, text: &str) -> (r: bool)
        ensures
            r == message_allowed_spec(self@, text@),
    {
        let len = text.len();
        if len < self.min_len as usize || len > self.max_len as usize {
            return false;
        }
        let mut i: usize = 0;
        while i < self.banned.len()
            invariant
                0 <= i <= self@.banned.len(),
                self@.banned.len() == self.banned@.len(),
                self@.min_len <= byte_len(text@) <= self@.max_len,
                forall|j: int|
                    0 <= j < i ==> !(pattern_compiles(#[trigger] self@.banned[j])
                        && pattern_matches(self@.banned[j], text@)),
            decreases self@.banned.len() - i,
        {
            proof {
                assert(self@.banned[i as int] == self.banned@[i as int]@);
            }
            match try_match(self.banned[i].as_str(), text) {
                Some(true) => {
                    return false;
                },
                _ => {},
            }
            i += 1;
        }
        proof {
            if exists|j: int|
                0 <= j < self@.banned.len() && pattern_compiles(#[trigger] self@.banned[j])
                    && pattern_matches(self@.banned[j], text@) {
                let j = choose|j: int|
                    0 <= j < self@.banned.len() && pattern_compiles(#[trigger] self@.banned[j])
                        && pattern_matches(self@.banned[j], text@);
                assert(!(pattern_compiles(self@.banned[j]) && pattern_matches(
                    self@.banned[j],
                    text@,
                )));
            }
        }
        true
    }
}

/// What one `message` sub-command line does to a configuration: the
/// new value on success, `None` on a syntax error. The line is `ban
/// <pattern>`, `min-length <n>` or `max-length <n>`; an empty line does
/// nothing.
#[verifier::opaque]
pub open spec fn message_line_effect(v: MessageFilterView, line: Seq<u8>) -> Option<
    MessageFilterView,
> {
    let t = trim(line);
    let cmd = first_token(t);
    let arg = rest_after_token(t);
    if t.len() == 0 {
        Some(v)
    } else if cmd == bytes_of("ban") {
        if arg.len() > 0 && valid_utf8(arg) && pattern_compiles(decode_utf8(arg)) {
            Some(MessageFilterView { banned: v.banned.push(decode_utf8(arg)), ..v })
        } else {
            None
        }
    } else if cmd == bytes_of("min-length") {
        if all_digits(arg) && 1 <= digits_val(arg) <= 65535 && digits_val(arg) <= v.max_len {
            Some(MessageFilterView { min_len: digits_val(arg) as u16, ..v })
        } else {
            None
        }
    } else if cmd == bytes_of("max-length") {
        if all_digits(arg) && 1 <= digits_val(arg) <= 65535 && v.min_len <= digits_val(arg) {
            Some(MessageFilterView { max_len: digits_val(arg) as u16, ..v })
        } else {
            None
        }
    } else {
        None
    }
}

impl MessageFilteringConfig {
    /// Processes one `message` sub-command line of a configuration
    /// file. On a syntax error the configuration is unchanged.
    pub fn process_line(&mut self, line: &[u8]) -> (r: Result<(), String>)
        requires
            old(self).wf(),
        ensures
            final(self).wf(),
            match r {
                Ok(()) => message_line_effect(old(self)@, line@) == Some(final(self)@),
                Err(_) => message_line_effect(old(self)@, line@) is None && final(self)@ == old(
                    self,
                )@,
            },
    {
        proof {
            reveal(message_line_effect);
        }
        let t = trim_bytes(line);
        if t.len() == 0 {
            return Ok(());
        }
        let (cmd, arg) = split_first_token(t.as_slice());
        if is_keyword(cmd.as_slice(), "ban") {
            if arg.len() == 0 {
                return Err(String::from_str("A pattern was expected after `message ban`"));
            }
            match bytes_to_string(arg) {
                Some(pattern) => {
                    proof {
                        vstd::utf8::encode_utf8_decode_utf8(pattern@);
                    }
                    self.ban(pattern)
                },
                None => Err(String::from_str("The pattern is not valid text")),
            }
        } else if is_keyword(cmd.as_slice(), "min-length") {
            match crate::strings::parse_uint(arg.as_slice(), 65535) {
                Some(v) => {
                    if v == 0 {
                        return Err(
                            String::from_str("A number from 1 to 65535 was expected"),
                        );
                    }
                    self.set_min_len(v as u16)
                },
                None => Err(String::from_str("A number from 1 to 65535 was expected")),
            }
        } else if is_keyword(cmd.as_slice(), "max-length") {
            match crate::strings::parse_uint(arg.as_slice(), 65535) {
                Some(v) => {
                    if v == 0 {
                        return Err(
                            String::from_str("A number from 1 to 65535 was expected"),
                        );
                    }
                    self.set_max_len(v as u16)
                },
                None => Err(String::from_str("A number from 1 to 65535 was expected")),
            }
        } else {
            Err(String::from_str("Unknown `message` sub-command"))
        }
    }
}

} // verus!
