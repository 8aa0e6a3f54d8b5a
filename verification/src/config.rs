//! The complete server configuration: IP, nickname and message
//! admission, and the listen socket addresses, fed from a line-oriented
//! configuration text.
//!
//! Each non-empty line holds a command token and an argument; `#`
//! introduces a comment. Merging two configurations overwrites the
//! scalar bounds and unions the collections; a text can be applied with
//! rollback, so that either all of it takes effect or none of it does.

use vstd::prelude::*;
use vstd::string::StringExecFns;

use crate::addr::IpAddress;
use crate::addr::SocketAddress;
use crate::error::ConfigParseError;
use crate::error::ConfigParseResult;
use crate::ip::IpFilterView;
use crate::ip::IpFilteringConfig;
use crate::ip::fmt_ipv4;
use crate::ip::fmt_ipv6;
use crate::ip::ip_allowed_spec;
use crate::ip::ip_line_effect;
use crate::ip::parse_ipv4;
use crate::ip::parse_ipv4_exec;
use crate::ip::parse_ipv6;
use crate::ip::parse_ipv6_exec;
use crate::json::dig;
use crate::message_filter::MessageFilterView;
use crate::message_filter::MessageFilteringConfig;
use crate::message_filter::message_allowed_spec;
use crate::message_filter::message_line_effect;
use crate::nickname::NicknameFilterView;
use crate::nickname::NicknameFilteringConfig;
use crate::nickname::nickname_allowed_spec;
use crate::nickname::nickname_line_effect;
use crate::strings::all_digits;
use crate::strings::bytes_of;
use crate::strings::digits_val;
use crate::strings::find_byte;
use crate::strings::find_byte_exec;
use crate::strings::first_token;
use crate::strings::is_keyword;
use crate::strings::parse_uint;
use crate::strings::rest_after_token;
use crate::strings::split_first_token;
use crate::strings::trim;
use crate::strings::trim_bytes;

verus! {

/// The decimal text of a nonnegative number, most significant digit
/// first, no leading zeros.
pub open spec fn fmt_dec(n: int) -> Seq<u8>
    recommends
        n >= 0,
    decreases n,
{
    if n <= 9 {
        seq![dig(n)]
    } else {
        fmt_dec(n / 10) + seq![dig(n)]
    }
}

/// The decimal text of `n` is digits and reads back as `n`.
pub proof fn lemma_fmt_dec(n: int)
    requires
        n >= 0,
    ensures
        all_digits(fmt_dec(n)),
        digits_val(fmt_dec(n)) == n,
    decreases n,
{
    if n <= 9 {
        assert(fmt_dec(n).drop_last() =~= Seq::<u8>::empty());
        assert(digits_val(Seq::<u8>::empty()) == 0);
    } else {
        lemma_fmt_dec(n / 10);
        assert(fmt_dec(n).drop_last() =~= fmt_dec(n / 10));
        assert(fmt_dec(n).last() == dig(n));
        assert(digits_val(fmt_dec(n)) == digits_val(fmt_dec(n / 10)) * 10 + (dig(n) - 48));
        assert((n / 10) * 10 + n % 10 == n);
    }
}

/// Reads a port number: decimal digits valued at most 65535.
pub open spec fn parse_port(s: Seq<u8>) -> Option<u16> {
    if all_digits(s) && digits_val(s) <= 65535 {
        Some(digits_val(s) as u16)
    } else {
        None
    }
}

/// The text of a socket address: `a.b.c.d:port` for IPv4,
/// `[groups]:port` for IPv6.
pub open spec fn fmt_sock_addr(sa: SocketAddress) -> Seq<u8> {
    match sa.ip {
        IpAddress::V4(a) => fmt_ipv4(a) + seq![58u8] + fmt_dec(sa.port as int),
        IpAddress::V6(a) => seq![91u8] + fmt_ipv6(a) + seq![93u8, 58u8] + fmt_dec(sa.port as int),
    }
}

/// Reads a socket address in either family's form, and nothing else.
#[verifier::opaque]
pub open spec fn parse_sock_addr(s: Seq<u8>) -> Option<SocketAddress> {
    if s.len() > 0 && s[0] == 91 {
        let j = find_byte(s, 93);
        if j >= s.len() {
            None
        } else {
            let inside = s.subrange(1, j);
            let after = s.skip(j + 1);
            if after.len() >= 1 && after[0] == 58 {
                match (parse_ipv6(inside), parse_port(after.skip(1))) {
                    (Some(a), Some(p)) => Some(
                        SocketAddress { ip: IpAddress::V6(a), port: p },
                    ),
                    _ => None,
                }
            } else {
                None
            }
        }
    } else {
        let i = find_byte(s, 58);
        if i >= s.len() {
            None
        } else {
            match (parse_ipv4(s.take(i)), parse_port(s.skip(i + 1))) {
                (Some(a), Some(p)) => Some(SocketAddress { ip: IpAddress::V4(a), port: p }),
                _ => None,
            }
        }
    }
}

/// Reads a socket address from `s` and nothing else.
#[verifier::rlimit(100)]
pub fn parse_sock_addr_exec(s: &[u8]) -> (r: Option<SocketAddress>)
    ensures
        r == parse_sock_addr(s@),
{
    proof {
        reveal(parse_sock_addr);
    }
    let n = s.len();
    if n > 0 && *vstd::slice::slice_index_get(s, 0) == 91 {
        let j = find_byte_exec(s, 93);
        if j >= n {
            return None;
        }
        proof {
            crate::strings::lemma_find_byte_found(s@, 93);
        }
        let inside = vstd::slice::slice_subrange(s, 1, j);
        let after = vstd::slice::slice_subrange(s, j + 1, n);
        proof {
            assert(inside@ =~= s@.subrange(1, j as int));
            assert(after@ =~= s@.skip(j as int + 1));
        }
        if after.len() >= 1 && *vstd::slice::slice_index_get(after, 0) == 58 {
            let port_bytes = vstd::slice::slice_subrange(after, 1, after.len());
            proof {
                assert(port_bytes@ =~= after@.skip(1));
            }
            let a = match parse_ipv6_exec(inside) {
                Some(a) => a,
                None => {
                    return None;
                },
            };
            match parse_uint(port_bytes, 65535) {
                Some(p) => Some(SocketAddress { ip: IpAddress::V6(a), port: p as u16 }),
                None => None,
            }
        } else {
            None
        }
    } else {
        let i = find_byte_exec(s, 58);
        if i >= n {
            return None;
        }
        let head = vstd::slice::slice_subrange(s, 0, i);
        let tail = vstd::slice::slice_subrange(s, i + 1, n);
        proof {
            assert(head@ =~= s@.take(i as int));
            assert(tail@ =~= s@.skip(i as int + 1));
        }
        let a = match parse_ipv4_exec(head) {
            Some(a) => a,
            None => {
                return None;
            },
        };
        match parse_uint(tail, 65535) {
            Some(p) => Some(SocketAddress { ip: IpAddress::V4(a), port: p as u16 }),
            None => None,
        }
    }
}

/// The mathematical value of a [`Config`].
#[verifier::ext_equal]
pub struct ConfigView {
    pub ip: IpFilterView,
    pub message: MessageFilterView,
    pub nickname: NicknameFilterView,
    pub listen: Seq<SocketAddress>,
}

/// What one configuration line does: nothing for an empty line or a
/// comment, else dispatch on the command token; `None` on a syntax
/// error.
#[verifier::opaque]
pub open spec fn config_line_effect(v: ConfigView, line: Seq<u8>) -> Option<ConfigView> {
    let t = trim(line);
    let cmd = first_token(t);
    let arg = rest_after_token(t);
    if t.len() == 0 || t[0] == 35 {
        Some(v)
    } else if arg.len() == 0 {
        None
    } else if cmd == bytes_of("ip") {
        match ip_line_effect(v.ip, arg) {
            Some(ipv) => Some(ConfigView { ip: ipv, ..v }),
            None => None,
        }
    } else if cmd == bytes_of("message") {
        match message_line_effect(v.message, arg) {
            Some(mv) => Some(ConfigView { message: mv, ..v }),
            None => None,
        }
    } else if cmd == bytes_of("nickname") {
        match nickname_line_effect(v.nickname, arg) {
            Some(nv) => Some(ConfigView { nickname: nv, ..v }),
            None => None,
        }
    } else if cmd == bytes_of("listen") {
        match parse_sock_addr(arg) {
            Some(sa) => Some(ConfigView { listen: v.listen.push(sa), ..v }),
            None => None,
        }
    } else {
        None
    }
}

/// What a whole configuration text does: its lines in order, stopping
/// at the first syntax error.
#[verifier::opaque]
pub open spec fn config_text_effect(v: ConfigView, text: Seq<u8>) -> Option<ConfigView>
    decreases text.len(),
    via config_text_effect_decreases
{
    let i = find_byte(text, 10);
    if i >= text.len() {
        config_line_effect(v, text)
    } else {
        match config_line_effect(v, text.take(i)) {
            Some(v2) => config_text_effect(v2, text.skip(i + 1)),
            None => None,
        }
    }
}

/// The merge of two configuration values: the second's scalar bounds,
/// the two collections of everything else joined.
pub open spec fn merged(a: ConfigView, b: ConfigView) -> ConfigView {
    ConfigView {
        ip: IpFilterView {
            v4_allowed: a.ip.v4_allowed + b.ip.v4_allowed,
            v4_banned: a.ip.v4_banned + b.ip.v4_banned,
            v4_banned_ranges: a.ip.v4_banned_ranges + b.ip.v4_banned_ranges,
            v6_allowed: a.ip.v6_allowed + b.ip.v6_allowed,
            v6_banned: a.ip.v6_banned + b.ip.v6_banned,
            v6_banned_ranges: a.ip.v6_banned_ranges + b.ip.v6_banned_ranges,
        },
        message: MessageFilterView {
            min_len: b.message.min_len,
            max_len: b.message.max_len,
            banned: a.message.banned + b.message.banned,
        },
        nickname: NicknameFilterView {
            min_len: b.nickname.min_len,
            max_len: b.nickname.max_len,
            allowed: a.nickname.allowed + b.nickname.allowed,
            banned: a.nickname.banned + b.nickname.banned,
        },
        listen: a.listen + b.listen,
    }
}

#[via_fn]
proof fn config_text_effect_decreases(v: ConfigView, text: Seq<u8>) {
    crate::strings::lemma_find_byte_found(text, 10);
}

/// One unfolding of [`config_text_effect`]: split at the first newline.
proof fn lemma_text_effect_unfold(v: ConfigView, text: Seq<u8>)
    ensures
        ({
            let i = find_byte(text, 10);
            if i >= text.len() {
                config_text_effect(v, text) == config_line_effect(v, text)
            } else {
                config_text_effect(v, text) == (match config_line_effect(v, text.take(i)) {
                    Some(v2) => config_text_effect(v2, text.skip(i + 1)),
                    None => None,
                })
            }
        }),
{
    reveal(config_text_effect);
}

/// A complete configuration of the server.
pub struct Config {
    ip_filtering: IpFilteringConfig,
    message_filtering: MessageFilteringConfig,
    nickname_filtering: NicknameFilteringConfig,
    listen_sock_addrs: Vec<SocketAddress>,
}

impl View for Config {
    type V = ConfigView;

    closed spec fn view(&self) -> ConfigView {
        ConfigView {
            ip: self.ip_filtering@,
            message: self.message_filtering@,
            nickname: self.nickname_filtering@,
            listen: self.listen_sock_addrs@,
        }
    }
}

impl Config {
    /// Component well-formedness: bounds in order, patterns valid,
    /// ranges normalized.
    pub open spec fn wf(self) -> bool {
        &&& self.spec_ip().wf()
        &&& self.spec_message().wf()
        &&& self.spec_nickname().wf()
    }

    /// The IP filtering component.
    pub closed spec fn spec_ip(self) -> IpFilteringConfig {
        self.ip_filtering
    }

    /// The message filtering component.
    pub closed spec fn spec_message(self) -> MessageFilteringConfig {
        self.message_filtering
    }

    /// The nickname filtering component.
    pub closed spec fn spec_nickname(self) -> NicknameFilteringConfig {
        self.nickname_filtering
    }

    /// Creates a configuration with default values: everything allowed
    /// within the default length bounds, no listeners.
    pub fn new() -> (r: Self)
        ensures
            r@.ip =~= (IpFilterView {
                v4_allowed: Seq::<u32>::empty(),
                v4_banned: Seq::<u32>::empty(),
                v4_banned_ranges: Seq::<(u32, u32)>::empty(),
                v6_allowed: Seq::<u128>::empty(),
                v6_banned: Seq::<u128>::empty(),
                v6_banned_ranges: Seq::<(u128, u128)>::empty(),
            }),
            r@.message.min_len == 1 && r@.message.max_len == 65535 && r@.message.banned
                =~= Seq::<Seq<char>>::empty(),
            r@.nickname.min_len == 1 && r@.nickname.max_len == 255 && r@.nickname.allowed
                =~= Seq::<Seq<char>>::empty() && r@.nickname.banned =~= Seq::<Seq<char>>::empty(),
            r@.listen =~= Seq::<SocketAddress>::empty(),
            r@ == Config::new_view(),
            r.wf(),
    {
        let r = Config {
            ip_filtering: IpFilteringConfig::new(),
            message_filtering: MessageFilteringConfig::new(),
            nickname_filtering: NicknameFilteringConfig::new(),
            listen_sock_addrs: Vec::new(),
        };
        proof {
            assert(r@ =~~= Config::new_view());
        }
        r
    }

    /// Merges another configuration in: scalar bounds are overwritten
    /// by the other's, collections take the other's entries as well.
    pub fn append(&mut self, other: Config)
        requires
            old(self).wf(),
            other.wf(),
        ensures
            final(self).wf(),
            final(self)@ =~~= merged(old(self)@, other@),
    {
        self.ip_filtering.append(&other.ip_filtering);
        self.message_filtering.append(other.message_filtering);
        self.nickname_filtering.append(other.nickname_filtering);
        let others = other.listen_sock_addrs;
        let ghost mid = *self;
        let mut i: usize = 0;
        while i < others.len()
            invariant
                0 <= i <= others@.len(),
                self.listen_sock_addrs@ =~= mid.listen_sock_addrs@ + others@.take(i as int),
                self.ip_filtering == mid.ip_filtering,
                self.message_filtering == mid.message_filtering,
                self.nickname_filtering == mid.nickname_filtering,
            decreases others@.len() - i,
        {
            self.listen_sock_addrs.push(others[i]);
            proof {
                assert(self.listen_sock_addrs@ =~= mid.listen_sock_addrs@ + others@.take(
                    i as int + 1,
                ));
            }
            i += 1;
        }
        proof {
            assert(others@.take(others@.len() as int) =~= others@);
            assert(self@ =~~= merged(old(self)@, other@));
        }
    }

    /// The admission decision for a peer address.
    pub fn is_allowed_ip_addr(&self, addr: &IpAddress) -> (r: bool)
        ensures
            r == ip_allowed_spec(self@.ip, *addr),
    {
        self.ip_filtering.is_allowed(addr)
    }

    /// The admission decision for message text.
    pub fn is_allowed_message_text(&self, text: &str) -> (r: bool)
        ensures
            r == message_allowed_spec(self@.message, text@),
    {
        self.message_filtering.is_allowed(text)
    }

    /// The admission decision for a nickname.
    pub fn is_allowed_nickname(&self, nickname: &str) -> (r: bool)
        ensures
            r == nickname_allowed_spec(self@.nickname, nickname@),
    {
        self.nickname_filtering.is_allowed(nickname)
    }

    /// The configured listen socket addresses.
    pub fn listen_sock_addrs(&self) -> (r: &Vec<SocketAddress>)
        ensures
            r@ == self@.listen,
    {
        &self.listen_sock_addrs
    }

    /// The IP filtering component.
    pub fn ip_filtering(&self) -> (r: &IpFilteringConfig)
        ensures
            r@ == self@.ip,
    {
        &self.ip_filtering
    }

    /// The message filtering component.
    pub fn message_filtering(&self) -> (r: &MessageFilteringConfig)
        ensures
            r@ == self@.message,
    {
        &self.message_filtering
    }

    /// The nickname filtering component.
    pub fn nickname_filtering(&self) -> (r: &NicknameFilteringConfig)
        ensures
            r@ == self@.nickname,
    {
        &self.nickname_filtering
    }

    /// Processes a single configuration line. An empty line or a
    /// comment does nothing; on a syntax error the configuration is
    /// unchanged and the description says what was wrong.
    pub fn process_line(&mut self, line: &[u8]) -> (r: Result<(), String>)
        requires
            old(self).wf(),
        ensures
            final(self).wf(),
            match r {
                Ok(()) => config_line_effect(old(self)@, line@) == Some(final(self)@),
                Err(_) => config_line_effect(old(self)@, line@) is None && final(self)@ == old(
                    self,
                )@,
            },
    {
        proof {
            reveal(config_line_effect);
        }
        let t = trim_bytes(line);
        if t.len() == 0 || *vstd::slice::slice_index_get(t.as_slice(), 0) == 35 {
            return Ok(());
        }
        let (cmd, arg) = split_first_token(t.as_slice());
        if arg.len() == 0 {
            return Err(String::from_str("An argument was expected after the command"));
        }
        if is_keyword(cmd.as_slice(), "ip") {
            self.ip_filtering.process_line(arg.as_slice())
        } else if is_keyword(cmd.as_slice(), "message") {
            self.message_filtering.process_line(arg.as_slice())
        } else if is_keyword(cmd.as_slice(), "nickname") {
            self.nickname_filtering.process_line(arg.as_slice())
        } else if is_keyword(cmd.as_slice(), "listen") {
            match parse_sock_addr_exec(arg.as_slice()) {
                Some(sa) => {
                    self.listen_sock_addrs.push(sa);
                    Ok(())
                },
                None => Err(String::from_str("A socket address was expected after `listen`")),
            }
        } else {
            Err(String::from_str("Not a valid configuration command"))
        }
    }

    /// Processes a configuration text line by line, mutating as it
    /// goes. On the first syntax error it stops with a [`Syntax`] error
    /// naming the line.
    ///
    /// [`Syntax`]: crate::error::ConfigParseErrorKind::Syntax
    #[verifier::rlimit(100)]
    pub fn process_string(&mut self, text: &[u8]) -> (r: ConfigParseResult<()>)
        requires
            old(self).wf(),
        ensures
            final(self).wf(),
            match r {
                Ok(()) => config_text_effect(old(self)@, text@) == Some(final(self)@),
                Err(_) => config_text_effect(old(self)@, text@) is None,
            },
    {
        let n = text.len();
        let mut pos: usize = 0;
        let mut line_num: u32 = 1;
        proof {
            assert(text@.skip(0) =~= text@);
        }
        loop
            invariant
                0 <= pos <= n,
                n == text@.len(),
                self.wf(),
                config_text_effect(old(self)@, text@) == config_text_effect(
                    self@,
                    text@.skip(pos as int),
                ),
            decreases n - pos,
        {
            let ghost remaining = text@.skip(pos as int);
            let rest = vstd::slice::slice_subrange(text, pos, n);
            proof {
                assert(rest@ =~= remaining);
                lemma_text_effect_unfold(self@, remaining);
            }
            let i = find_byte_exec(rest, 10);
            if i >= rest.len() {
                match self.process_line(rest) {
                    Ok(()) => {
                        return Ok(());
                    },
                    Err(desc) => {
                        return Err(
                            ConfigParseError::syntax_error(String::new(), line_num, desc),
                        );
                    },
                }
            }
            let line = vstd::slice::slice_subrange(rest, 0, i);
            proof {
                assert(line@ =~= remaining.take(i as int));
            }
            match self.process_line(line) {
                Ok(()) => {},
                Err(desc) => {
                    return Err(ConfigParseError::syntax_error(String::new(), line_num, desc));
                },
            }
            proof {
                assert(remaining.skip(i as int + 1) =~= text@.skip(pos as int + i + 1));
                assert(config_text_effect(old(self)@, text@) == config_text_effect(
                    self@,
                    text@.skip(pos as int + i + 1),
                ));
            }
            pos = pos + i + 1;
            if line_num < u32::MAX {
                line_num = line_num + 1;
            }
        }
    }

    /// Processes a configuration text with rollback-on-error: either
    /// the whole text takes effect — applied to defaults, then merged
    /// in — or the configuration stays as it was.
    pub fn process_string_rollback(&mut self, text: &[u8]) -> (r: ConfigParseResult<()>)
        requires
            old(self).wf(),
        ensures
            final(self).wf(),
            match r {
                Ok(()) => config_text_effect(Config::new_view(), text@) is Some && final(self)@
                    =~~= merged(old(self)@, config_text_effect(Config::new_view(), text@)->0),
                Err(_) => config_text_effect(Config::new_view(), text@) is None && final(self)@
                    == old(self)@,
            },
    {
        let mut temp = Config::new();
        match temp.process_string(text) {
            Ok(()) => {
                self.append(temp);
                Ok(())
            },
            Err(e) => Err(e),
        }
    }

    /// The value of a default configuration.
    pub open spec fn new_view() -> ConfigView {
        ConfigView {
            ip: IpFilterView {
                v4_allowed: Seq::<u32>::empty(),
                v4_banned: Seq::<u32>::empty(),
                v4_banned_ranges: Seq::<(u32, u32)>::empty(),
                v6_allowed: Seq::<u128>::empty(),
                v6_banned: Seq::<u128>::empty(),
                v6_banned_ranges: Seq::<(u128, u128)>::empty(),
            },
            message: MessageFilterView {
                min_len: 1,
                max_len: 65535,
                banned: Seq::<Seq<char>>::empty(),
            },
            nickname: NicknameFilterView {
                min_len: 1,
                max_len: 255,
                allowed: Seq::<Seq<char>>::empty(),
                banned: Seq::<Seq<char>>::empty(),
            },
            listen: Seq::<SocketAddress>::empty(),
        }
    }
}


/// Every byte of a socket-address literal is an address byte, and the
/// literal is nonempty.
proof fn lemma_fmt_sock_addr_bytes(sa: SocketAddress)
    ensures
        forall|j: int|
            0 <= j < fmt_sock_addr(sa).len() ==> crate::ip::addr_byte(
                #[trigger] fmt_sock_addr(sa)[j],
            ),
        fmt_sock_addr(sa).len() > 0,
{
    let p = |b: u8| crate::ip::addr_byte(b);
    lemma_fmt_dec(sa.port as int);
    assert(forall|j: int|
        0 <= j < fmt_dec(sa.port as int).len() ==> p(#[trigger] fmt_dec(sa.port as int)[j]));
    match sa.ip {
        IpAddress::V4(a) => {
            crate::ip::lemma_fmt_ipv4_bytes(a);
            assert(forall|j: int| 0 <= j < fmt_ipv4(a).len() ==> p(#[trigger] fmt_ipv4(a)[j]));
            crate::ip::lemma_byte_class_concat(fmt_ipv4(a), seq![58u8], p);
            crate::ip::lemma_byte_class_concat(
                fmt_ipv4(a) + seq![58u8],
                fmt_dec(sa.port as int),
                p,
            );
        },
        IpAddress::V6(a) => {
            crate::ip::lemma_fmt_ip_bytes(IpAddress::V6(a));
            crate::ip::lemma_byte_class_concat(seq![91u8], fmt_ipv6(a), p);
            crate::ip::lemma_byte_class_concat(seq![91u8] + fmt_ipv6(a), seq![93u8, 58u8], p);
            crate::ip::lemma_byte_class_concat(
                seq![91u8] + fmt_ipv6(a) + seq![93u8, 58u8],
                fmt_dec(sa.port as int),
                p,
            );
        },
    }
}

#[verifier::rlimit(100)]
#[verifier::spinoff_prover]
proof fn lemma_sock_addr_round_v4(a: u32, port: u16)
    ensures
        parse_sock_addr(fmt_sock_addr(SocketAddress { ip: IpAddress::V4(a), port })) == Some(
            SocketAddress { ip: IpAddress::V4(a), port },
        ),
{
    reveal(parse_sock_addr);
    let sa = SocketAddress { ip: IpAddress::V4(a), port };
    lemma_fmt_dec(port as int);
    let port_text = fmt_dec(port as int);
    let s = fmt_sock_addr(sa);
    crate::ip::lemma_fmt_ipv4_bytes(a);
    assert(s =~= fmt_ipv4(a) + seq![58u8] + port_text);
    assert(s[0] == fmt_ipv4(a)[0]);
    assert(s[0] != 91);
    let k = fmt_ipv4(a).len() as int;
    assert(s[k] == 58);
    assert forall|j: int| 0 <= j < k implies #[trigger] s[j] != 58 by {
        assert(s[j] == fmt_ipv4(a)[j]);
    }
    crate::strings::lemma_find_byte_at(s, 58, k);
    assert(s.take(k) =~= fmt_ipv4(a));
    assert(s.skip(k + 1) =~= port_text);
    crate::ip::lemma_ipv4_round(a);
}

#[verifier::rlimit(100)]
proof fn lemma_sock_addr_round_v6(a: u128, port: u16)
    ensures
        parse_sock_addr(fmt_sock_addr(SocketAddress { ip: IpAddress::V6(a), port })) == Some(
            SocketAddress { ip: IpAddress::V6(a), port },
        ),
{
    reveal(parse_sock_addr);
    let sa = SocketAddress { ip: IpAddress::V6(a), port };
    lemma_fmt_dec(port as int);
    let port_text = fmt_dec(port as int);
    let s = fmt_sock_addr(sa);
    assert(s =~= seq![91u8] + fmt_ipv6(a) + seq![93u8, 58u8] + port_text);
    assert(s[0] == 91);
    crate::ip::lemma_fmt_groups_bytes(crate::ip::groups_of(a));
    let k = 1 + fmt_ipv6(a).len() as int;
    assert(s[k] == 93);
    assert forall|j: int| 0 <= j < k implies #[trigger] s[j] != 93 by {
        if j == 0 {
            assert(s[j] == 91);
        } else {
            assert(s[j] == fmt_ipv6(a)[j - 1]);
        }
    }
    crate::strings::lemma_find_byte_at(s, 93, k);
    assert(s.subrange(1, k) =~= fmt_ipv6(a));
    let after = s.skip(k + 1);
    assert(after =~= seq![58u8] + port_text);
    assert(after[0] == 58);
    assert(after.skip(1) =~= port_text);
    crate::ip::lemma_ipv6_round(a);
}

/// The text of a socket address reads back as that address.
pub proof fn lemma_sock_addr_round(sa: SocketAddress)
    ensures
        parse_sock_addr(fmt_sock_addr(sa)) == Some(sa),
{
    match sa.ip {
        IpAddress::V4(a) => {
            lemma_sock_addr_round_v4(a, sa.port);
        },
        IpAddress::V6(a) => {
            lemma_sock_addr_round_v6(a, sa.port);
        },
    }
}

/// The lines of a configuration text, joined with newlines; the text
/// ends with a newline after its last line.
pub open spec fn join_lines(ls: Seq<Seq<u8>>) -> Seq<u8>
    decreases ls.len(),
{
    if ls.len() == 0 {
        Seq::<u8>::empty()
    } else {
        ls[0] + seq![10u8] + join_lines(ls.drop_first())
    }
}

/// What a list of lines does, applied in order; `None` at the first
/// syntax error.
pub open spec fn lines_effect(v: ConfigView, ls: Seq<Seq<u8>>) -> Option<ConfigView>
    decreases ls.len(),
{
    if ls.len() == 0 {
        Some(v)
    } else {
        match config_line_effect(v, ls[0]) {
            Some(v2) => lines_effect(v2, ls.drop_first()),
            None => None,
        }
    }
}

/// A line that holds no newline of its own.
pub open spec fn line_ok(l: Seq<u8>) -> bool {
    forall|j: int| 0 <= j < l.len() ==> #[trigger] l[j] != 10
}

/// Applying a text of joined lines is applying the lines in order.
proof fn lemma_join_effect(v: ConfigView, ls: Seq<Seq<u8>>, t2: Seq<u8>)
    requires
        forall|i: int| 0 <= i < ls.len() ==> line_ok(#[trigger] ls[i]),
    ensures
        config_text_effect(v, join_lines(ls) + t2) == (match lines_effect(v, ls) {
            Some(v2) => config_text_effect(v2, t2),
            None => None,
        }),
    decreases ls.len(),
{
    if ls.len() == 0 {
        assert(join_lines(ls) + t2 =~= t2);
    } else {
        let line = ls[0];
        let rest = ls.drop_first();
        let text = join_lines(ls) + t2;
        assert(text =~= line + seq![10u8] + (join_lines(rest) + t2));
        assert(text[line.len() as int] == 10);
        assert forall|j: int| 0 <= j < line.len() implies #[trigger] text[j] != 10 by {
            assert(text[j] == line[j]);
        }
        crate::strings::lemma_find_byte_at(text, 10, line.len() as int);
        lemma_text_effect_unfold(v, text);
        assert(text.take(line.len() as int) =~= line);
        assert(text.skip(line.len() as int + 1) =~= join_lines(rest) + t2);
        match config_line_effect(v, line) {
            Some(v2) => {
                lemma_join_effect(v2, rest, t2);
            },
            None => {},
        }
    }
}

/// Line lists apply one after the other.
proof fn lemma_lines_append(v: ConfigView, l1: Seq<Seq<u8>>, l2: Seq<Seq<u8>>)
    ensures
        lines_effect(v, l1 + l2) == (match lines_effect(v, l1) {
            Some(v2) => lines_effect(v2, l2),
            None => None,
        }),
    decreases l1.len(),
{
    if l1.len() == 0 {
        assert(l1 + l2 =~= l2);
    } else {
        assert((l1 + l2)[0] == l1[0]);
        assert((l1 + l2).drop_first() =~= l1.drop_first() + l2);
        match config_line_effect(v, l1[0]) {
            Some(v2) => {
                lemma_lines_append(v2, l1.drop_first(), l2);
            },
            None => {},
        }
    }
}


/// A command keyword: nonempty, free of whitespace, and never opening
/// a comment.
pub open spec fn kw_ok(s: Seq<u8>) -> bool {
    s.len() > 0 && forall|j: int|
        0 <= j < s.len() ==> (!crate::strings::is_ws(#[trigger] s[j]) && s[j] != 35 && s[j] != 10)
}

/// Concrete facts about the grammar's keywords: each is a sound
/// keyword, and their lengths and one byte tell them apart.
proof fn lemma_keyword_bytes()
    ensures
        kw_ok(bytes_of("ip")) && bytes_of("ip").len() == 2,
        kw_ok(bytes_of("message")) && bytes_of("message").len() == 7,
        kw_ok(bytes_of("nickname")) && bytes_of("nickname").len() == 8,
        kw_ok(bytes_of("listen")) && bytes_of("listen").len() == 6,
        kw_ok(bytes_of("allow")) && bytes_of("allow").len() == 5,
        kw_ok(bytes_of("ban")) && bytes_of("ban").len() == 3,
        kw_ok(bytes_of("ban-range")) && bytes_of("ban-range").len() == 9,
        kw_ok(bytes_of("min-length")) && bytes_of("min-length").len() == 10,
        kw_ok(bytes_of("max-length")) && bytes_of("max-length").len() == 10,
        bytes_of("min-length")[1] == 105,
        bytes_of("max-length")[1] == 97,
{
    reveal_strlit("ip");
    reveal_strlit("message");
    reveal_strlit("nickname");
    reveal_strlit("listen");
    reveal_strlit("allow");
    reveal_strlit("ban");
    reveal_strlit("ban-range");
    reveal_strlit("min-length");
    reveal_strlit("max-length");
    vstd::utf8::is_ascii_chars_encode_utf8("ip"@);
    vstd::utf8::is_ascii_chars_encode_utf8("message"@);
    vstd::utf8::is_ascii_chars_encode_utf8("nickname"@);
    vstd::utf8::is_ascii_chars_encode_utf8("listen"@);
    vstd::utf8::is_ascii_chars_encode_utf8("allow"@);
    vstd::utf8::is_ascii_chars_encode_utf8("ban"@);
    vstd::utf8::is_ascii_chars_encode_utf8("ban-range"@);
    vstd::utf8::is_ascii_chars_encode_utf8("min-length"@);
    vstd::utf8::is_ascii_chars_encode_utf8("max-length"@);
}

/// Bytes of configuration text that sit safely inside one line:
/// nonempty, no whitespace at either end, no newline anywhere.
pub open spec fn writable_text(b: Seq<u8>) -> bool {
    &&& b.len() > 0
    &&& !crate::strings::is_ws(b[0])
    &&& !crate::strings::is_ws(b.last())
    &&& forall|j: int| 0 <= j < b.len() ==> #[trigger] b[j] != 10
}

/// Address bytes make writable text.
proof fn lemma_addr_writable(b: Seq<u8>)
    requires
        b.len() > 0,
        forall|j: int| 0 <= j < b.len() ==> crate::ip::addr_byte(#[trigger] b[j]),
    ensures
        writable_text(b),
{
}

/// An `ip` line applies the sub-command to the IP component alone.
proof fn lemma_line_ip(v: ConfigView, sub: Seq<u8>)
    requires
        writable_text(sub),
    ensures
        config_line_effect(v, bytes_of("ip") + seq![32u8] + sub) == (match ip_line_effect(
            v.ip,
            sub,
        ) {
            Some(x) => Some(ConfigView { ip: x, ..v }),
            None => None,
        }),
{
    reveal(config_line_effect);
    lemma_keyword_bytes();
    crate::strings::lemma_split_at_ws(bytes_of("ip"), sub);
    let line = bytes_of("ip") + seq![32u8] + sub;
    assert(line[0] == bytes_of("ip")[0]);
}

/// A `message` line applies the sub-command to the message component.
proof fn lemma_line_message(v: ConfigView, sub: Seq<u8>)
    requires
        writable_text(sub),
    ensures
        config_line_effect(v, bytes_of("message") + seq![32u8] + sub) == (match
            message_line_effect(v.message, sub) {
            Some(x) => Some(ConfigView { message: x, ..v }),
            None => None,
        }),
{
    reveal(config_line_effect);
    lemma_keyword_bytes();
    crate::strings::lemma_split_at_ws(bytes_of("message"), sub);
    let line = bytes_of("message") + seq![32u8] + sub;
    assert(line[0] == bytes_of("message")[0]);
}

/// A `nickname` line applies the sub-command to the nickname component.
proof fn lemma_line_nickname(v: ConfigView, sub: Seq<u8>)
    requires
        writable_text(sub),
    ensures
        config_line_effect(v, bytes_of("nickname") + seq![32u8] + sub) == (match
            nickname_line_effect(v.nickname, sub) {
            Some(x) => Some(ConfigView { nickname: x, ..v }),
            None => None,
        }),
{
    reveal(config_line_effect);
    lemma_keyword_bytes();
    crate::strings::lemma_split_at_ws(bytes_of("nickname"), sub);
    let line = bytes_of("nickname") + seq![32u8] + sub;
    assert(line[0] == bytes_of("nickname")[0]);
}

/// A `listen` line adds the socket address it names.
proof fn lemma_line_listen(v: ConfigView, sa: SocketAddress)
    ensures
        config_line_effect(v, bytes_of("listen") + seq![32u8] + fmt_sock_addr(sa)) == Some(
            ConfigView { listen: v.listen.push(sa), ..v },
        ),
{
    reveal(config_line_effect);
    lemma_keyword_bytes();
    lemma_fmt_sock_addr_bytes(sa);
    lemma_addr_writable(fmt_sock_addr(sa));
    crate::strings::lemma_split_at_ws(bytes_of("listen"), fmt_sock_addr(sa));
    let line = bytes_of("listen") + seq![32u8] + fmt_sock_addr(sa);
    assert(line[0] == bytes_of("listen")[0]);
    lemma_sock_addr_round(sa);
}


/// An `allow <addr>` sub-line adds the address to the allow-list of
/// its family.
proof fn lemma_ip_sub_allow(ipv: IpFilterView, addr: IpAddress)
    ensures
        ({
            let r = ip_line_effect(ipv, bytes_of("allow") + seq![32u8] + crate::ip::fmt_ip(addr));
            match addr {
                IpAddress::V4(a) => r == Some(
                    IpFilterView { v4_allowed: ipv.v4_allowed.push(a), ..ipv },
                ),
                IpAddress::V6(a) => r == Some(
                    IpFilterView { v6_allowed: ipv.v6_allowed.push(a), ..ipv },
                ),
            }
        }),
{
    reveal(ip_line_effect);
    lemma_keyword_bytes();
    crate::ip::lemma_fmt_ip_bytes(addr);
    lemma_addr_writable(crate::ip::fmt_ip(addr));
    crate::strings::lemma_split_at_ws(bytes_of("allow"), crate::ip::fmt_ip(addr));
    crate::ip::lemma_ip_round(addr);
}

/// A `ban <addr>` sub-line adds the address to the ban list of its
/// family.
proof fn lemma_ip_sub_ban(ipv: IpFilterView, addr: IpAddress)
    ensures
        ({
            let r = ip_line_effect(ipv, bytes_of("ban") + seq![32u8] + crate::ip::fmt_ip(addr));
            match addr {
                IpAddress::V4(a) => r == Some(
                    IpFilterView { v4_banned: ipv.v4_banned.push(a), ..ipv },
                ),
                IpAddress::V6(a) => r == Some(
                    IpFilterView { v6_banned: ipv.v6_banned.push(a), ..ipv },
                ),
            }
        }),
{
    reveal(ip_line_effect);
    lemma_keyword_bytes();
    crate::ip::lemma_fmt_ip_bytes(addr);
    lemma_addr_writable(crate::ip::fmt_ip(addr));
    crate::strings::lemma_split_at_ws(bytes_of("ban"), crate::ip::fmt_ip(addr));
    crate::ip::lemma_ip_round(addr);
}

/// A `ban-range <lo> <hi>` sub-line with ordered same-family ends adds
/// exactly that range.
proof fn lemma_ip_sub_ban_range_v4(ipv: IpFilterView, lo: u32, hi: u32)
    requires
        lo <= hi,
    ensures
        ip_line_effect(
            ipv,
            bytes_of("ban-range") + seq![32u8] + (crate::ip::fmt_ipv4(lo) + seq![32u8]
                + crate::ip::fmt_ipv4(hi)),
        ) == Some(IpFilterView { v4_banned_ranges: ipv.v4_banned_ranges.push((lo, hi)), ..ipv }),
{
    lemma_keyword_bytes();
    crate::ip::lemma_fmt_ip_bytes(IpAddress::V4(lo));
    crate::ip::lemma_fmt_ip_bytes(IpAddress::V4(hi));
    let flo = crate::ip::fmt_ipv4(lo);
    let fhi = crate::ip::fmt_ipv4(hi);
    let arg = flo + seq![32u8] + fhi;
    reveal(ip_line_effect);
    crate::strings::lemma_split_at_ws(flo, fhi);
    assert(writable_text(arg)) by {
        assert(arg[0] == flo[0]);
        assert(arg.last() == fhi.last());
        assert forall|j: int| 0 <= j < arg.len() implies #[trigger] arg[j] != 10 by {
            if j < flo.len() {
                assert(arg[j] == flo[j]);
            } else if j == flo.len() {
                assert(arg[j] == 32);
            } else {
                assert(arg[j] == fhi[j - flo.len() - 1]);
            }
        }
    }
    crate::strings::lemma_split_at_ws(bytes_of("ban-range"), arg);
    crate::ip::lemma_ip_round(IpAddress::V4(lo));
    crate::ip::lemma_ip_round(IpAddress::V4(hi));
}

/// The IPv6 form of the `ban-range` sub-line lemma.
#[verifier::rlimit(100)]
proof fn lemma_ip_sub_ban_range_v6(ipv: IpFilterView, lo: u128, hi: u128)
    requires
        lo <= hi,
    ensures
        ip_line_effect(
            ipv,
            bytes_of("ban-range") + seq![32u8] + (crate::ip::fmt_ipv6(lo) + seq![32u8]
                + crate::ip::fmt_ipv6(hi)),
        ) == Some(IpFilterView { v6_banned_ranges: ipv.v6_banned_ranges.push((lo, hi)), ..ipv }),
{
    lemma_keyword_bytes();
    crate::ip::lemma_fmt_ip_bytes(IpAddress::V6(lo));
    crate::ip::lemma_fmt_ip_bytes(IpAddress::V6(hi));
    let flo = crate::ip::fmt_ipv6(lo);
    let fhi = crate::ip::fmt_ipv6(hi);
    let arg = flo + seq![32u8] + fhi;
    reveal(ip_line_effect);
    crate::strings::lemma_split_at_ws(flo, fhi);
    assert(writable_text(arg)) by {
        assert(arg[0] == flo[0]);
        assert(arg.last() == fhi.last());
        assert forall|j: int| 0 <= j < arg.len() implies #[trigger] arg[j] != 10 by {
            if j < flo.len() {
                assert(arg[j] == flo[j]);
            } else if j == flo.len() {
                assert(arg[j] == 32);
            } else {
                assert(arg[j] == fhi[j - flo.len() - 1]);
            }
        }
    }
    crate::strings::lemma_split_at_ws(bytes_of("ban-range"), arg);
    crate::ip::lemma_ip_round(IpAddress::V6(lo));
    crate::ip::lemma_ip_round(IpAddress::V6(hi));
}


/// An `allow <nick>` sub-line adds the nickname to the allow-list.
proof fn lemma_nick_sub_allow(nv: NicknameFilterView, nick: Seq<char>)
    requires
        writable_text(vstd::utf8::encode_utf8(nick)),
    ensures
        nickname_line_effect(
            nv,
            bytes_of("allow") + seq![32u8] + vstd::utf8::encode_utf8(nick),
        ) == Some(NicknameFilterView { allowed: nv.allowed.push(nick), ..nv }),
{
    reveal(nickname_line_effect);
    lemma_keyword_bytes();
    let arg = vstd::utf8::encode_utf8(nick);
    crate::strings::lemma_split_at_ws(bytes_of("allow"), arg);
    vstd::utf8::encode_utf8_valid_utf8(nick);
    vstd::utf8::encode_utf8_decode_utf8(nick);
}

/// A `ban <pattern>` sub-line adds the pattern, which must be a valid
/// regular expression.
proof fn lemma_nick_sub_ban(nv: NicknameFilterView, pattern: Seq<char>)
    requires
        writable_text(vstd::utf8::encode_utf8(pattern)),
        crate::patterns::pattern_compiles(pattern),
    ensures
        nickname_line_effect(
            nv,
            bytes_of("ban") + seq![32u8] + vstd::utf8::encode_utf8(pattern),
        ) == Some(NicknameFilterView { banned: nv.banned.push(pattern), ..nv }),
{
    reveal(nickname_line_effect);
    lemma_keyword_bytes();
    let arg = vstd::utf8::encode_utf8(pattern);
    crate::strings::lemma_split_at_ws(bytes_of("ban"), arg);
    vstd::utf8::encode_utf8_valid_utf8(pattern);
    vstd::utf8::encode_utf8_decode_utf8(pattern);
}

/// A `min-length <n>` sub-line sets the nickname minimum.
proof fn lemma_nick_sub_min(nv: NicknameFilterView, n: u8)
    requires
        1 <= n <= nv.max_len,
    ensures
        nickname_line_effect(nv, bytes_of("min-length") + seq![32u8] + fmt_dec(n as int)) == Some(
            NicknameFilterView { min_len: n, ..nv },
        ),
{
    reveal(nickname_line_effect);
    lemma_keyword_bytes();
    lemma_fmt_dec(n as int);
    crate::strings::lemma_split_at_ws(bytes_of("min-length"), fmt_dec(n as int));
}

/// A `max-length <n>` sub-line sets the nickname maximum.
proof fn lemma_nick_sub_max(nv: NicknameFilterView, n: u8)
    requires
        nv.min_len <= n,
        1 <= n,
    ensures
        nickname_line_effect(nv, bytes_of("max-length") + seq![32u8] + fmt_dec(n as int)) == Some(
            NicknameFilterView { max_len: n, ..nv },
        ),
{
    reveal(nickname_line_effect);
    lemma_keyword_bytes();
    lemma_fmt_dec(n as int);
    crate::strings::lemma_split_at_ws(bytes_of("max-length"), fmt_dec(n as int));
    assert(bytes_of("max-length") != bytes_of("min-length"));
}

/// A `ban <pattern>` sub-line for message text.
proof fn lemma_msg_sub_ban(mv: MessageFilterView, pattern: Seq<char>)
    requires
        writable_text(vstd::utf8::encode_utf8(pattern)),
        crate::patterns::pattern_compiles(pattern),
    ensures
        message_line_effect(
            mv,
            bytes_of("ban") + seq![32u8] + vstd::utf8::encode_utf8(pattern),
        ) == Some(MessageFilterView { banned: mv.banned.push(pattern), ..mv }),
{
    reveal(message_line_effect);
    lemma_keyword_bytes();
    let arg = vstd::utf8::encode_utf8(pattern);
    crate::strings::lemma_split_at_ws(bytes_of("ban"), arg);
    vstd::utf8::encode_utf8_valid_utf8(pattern);
    vstd::utf8::encode_utf8_decode_utf8(pattern);
}

/// A `min-length <n>` sub-line sets the message minimum.
proof fn lemma_msg_sub_min(mv: MessageFilterView, n: u16)
    requires
        1 <= n <= mv.max_len,
    ensures
        message_line_effect(mv, bytes_of("min-length") + seq![32u8] + fmt_dec(n as int)) == Some(
            MessageFilterView { min_len: n, ..mv },
        ),
{
    reveal(message_line_effect);
    lemma_keyword_bytes();
    lemma_fmt_dec(n as int);
    crate::strings::lemma_split_at_ws(bytes_of("min-length"), fmt_dec(n as int));
}

/// A `max-length <n>` sub-line sets the message maximum.
proof fn lemma_msg_sub_max(mv: MessageFilterView, n: u16)
    requires
        mv.min_len <= n,
        1 <= n,
    ensures
        message_line_effect(mv, bytes_of("max-length") + seq![32u8] + fmt_dec(n as int)) == Some(
            MessageFilterView { max_len: n, ..mv },
        ),
{
    reveal(message_line_effect);
    lemma_keyword_bytes();
    lemma_fmt_dec(n as int);
    crate::strings::lemma_split_at_ws(bytes_of("max-length"), fmt_dec(n as int));
    assert(bytes_of("max-length") != bytes_of("min-length"));
}


/// The canonical `listen` line of one socket address.
pub open spec fn listen_line(sa: SocketAddress) -> Seq<u8> {
    bytes_of("listen") + seq![32u8] + fmt_sock_addr(sa)
}

/// The canonical `ip allow` line of one address.
pub open spec fn ip_allow_line(addr: IpAddress) -> Seq<u8> {
    bytes_of("ip") + seq![32u8] + (bytes_of("allow") + seq![32u8] + crate::ip::fmt_ip(addr))
}

/// The canonical `ip ban` line of one address.
pub open spec fn ip_ban_line(addr: IpAddress) -> Seq<u8> {
    bytes_of("ip") + seq![32u8] + (bytes_of("ban") + seq![32u8] + crate::ip::fmt_ip(addr))
}

/// The canonical `ip ban-range` line of one normalized range.
pub open spec fn ip_range_line(lo: IpAddress, hi: IpAddress) -> Seq<u8> {
    bytes_of("ip") + seq![32u8] + (bytes_of("ban-range") + seq![32u8] + (crate::ip::fmt_ip(lo)
        + seq![32u8] + crate::ip::fmt_ip(hi)))
}

/// Applying the canonical `listen` lines adds exactly those addresses.
proof fn lemma_canonical_listen(v: ConfigView, xs: Seq<SocketAddress>)
    ensures
        lines_effect(v, xs.map_values(|sa: SocketAddress| listen_line(sa))) == Some(
            ConfigView { listen: v.listen + xs, ..v },
        ),
    decreases xs.len(),
{
    let ls = xs.map_values(|sa: SocketAddress| listen_line(sa));
    if xs.len() == 0 {
        assert(v.listen + xs =~= v.listen);
        assert(ConfigView { listen: v.listen + xs, ..v } =~~= v);
    } else {
        assert(ls[0] == listen_line(xs[0]));
        lemma_line_listen(v, xs[0]);
        let v2 = ConfigView { listen: v.listen.push(xs[0]), ..v };
        assert(ls.drop_first() =~= xs.drop_first().map_values(
            |sa: SocketAddress| listen_line(sa),
        ));
        lemma_canonical_listen(v2, xs.drop_first());
        assert(v2.listen + xs.drop_first() =~= v.listen + xs);
        assert(ConfigView { listen: v2.listen + xs.drop_first(), ..v2 } =~~= (ConfigView {
            listen: v.listen + xs,
            ..v
        }));
    }
}

/// Applying the canonical `ip allow` lines of IPv4 addresses adds
/// exactly those addresses.
proof fn lemma_canonical_v4_allow(v: ConfigView, xs: Seq<u32>)
    ensures
        lines_effect(v, xs.map_values(|a: u32| ip_allow_line(IpAddress::V4(a)))) == Some(
            ConfigView {
                ip: IpFilterView { v4_allowed: v.ip.v4_allowed + xs, ..v.ip },
                ..v
            },
        ),
    decreases xs.len(),
{
    let ls = xs.map_values(|a: u32| ip_allow_line(IpAddress::V4(a)));
    if xs.len() == 0 {
        assert(v.ip.v4_allowed + xs =~= v.ip.v4_allowed);
        assert(ConfigView { ip: IpFilterView { v4_allowed: v.ip.v4_allowed + xs, ..v.ip }, ..v }
            =~~= v);
    } else {
        let addr = IpAddress::V4(xs[0]);
        assert(ls[0] == ip_allow_line(addr));
        crate::ip::lemma_fmt_ip_bytes(addr);
        lemma_addr_writable(crate::ip::fmt_ip(addr));
        lemma_keyword_bytes();
        let sub = bytes_of("allow") + seq![32u8] + crate::ip::fmt_ip(addr);
        assert(writable_text(sub)) by {
            lemma_sub_writable(bytes_of("allow"), crate::ip::fmt_ip(addr));
        }
        lemma_line_ip(v, sub);
        lemma_ip_sub_allow(v.ip, addr);
        let v2 = ConfigView { ip: IpFilterView { v4_allowed: v.ip.v4_allowed.push(xs[0]), ..v.ip }, ..v };
        assert(ls.drop_first() =~= xs.drop_first().map_values(
            |a: u32| ip_allow_line(IpAddress::V4(a)),
        ));
        lemma_canonical_v4_allow(v2, xs.drop_first());
        assert(v2.ip.v4_allowed + xs.drop_first() =~= v.ip.v4_allowed + xs);
        assert(ConfigView { ip: IpFilterView { v4_allowed: v2.ip.v4_allowed + xs.drop_first(), ..v2.ip }, ..v2 }
            =~~= (ConfigView { ip: IpFilterView { v4_allowed: v.ip.v4_allowed + xs, ..v.ip }, ..v }));
    }
}

/// A keyword followed by writable text is writable.
proof fn lemma_sub_writable(kw: Seq<u8>, arg: Seq<u8>)
    requires
        kw_ok(kw),
        writable_text(arg),
    ensures
        writable_text(kw + seq![32u8] + arg),
{
    let sub = kw + seq![32u8] + arg;
    assert(sub[0] == kw[0]);
    assert(sub.last() == arg.last());
    assert forall|j: int| 0 <= j < sub.len() implies #[trigger] sub[j] != 10 by {
        if j < kw.len() {
            assert(sub[j] == kw[j]);
        } else if j == kw.len() {
            assert(sub[j] == 32);
        } else {
            assert(sub[j] == arg[j - kw.len() - 1]);
        }
    }
}


/// Applying the canonical `ip allow` lines of IPv6 addresses adds
/// exactly those addresses.
proof fn lemma_canonical_v6_allow(v: ConfigView, xs: Seq<u128>)
    ensures
        lines_effect(v, xs.map_values(|a: u128| ip_allow_line(IpAddress::V6(a)))) == Some(
            ConfigView { ip: IpFilterView { v6_allowed: v.ip.v6_allowed + xs, ..v.ip }, ..v },
        ),
    decreases xs.len(),
{
    let ls = xs.map_values(|a: u128| ip_allow_line(IpAddress::V6(a)));
    if xs.len() == 0 {
        assert(v.ip.v6_allowed + xs =~= v.ip.v6_allowed);
        assert(ConfigView { ip: IpFilterView { v6_allowed: v.ip.v6_allowed + xs, ..v.ip }, ..v }
            =~~= v);
    } else {
        let addr = IpAddress::V6(xs[0]);
        assert(ls[0] == ip_allow_line(addr));
        crate::ip::lemma_fmt_ip_bytes(addr);
        lemma_addr_writable(crate::ip::fmt_ip(addr));
        lemma_keyword_bytes();
        let sub = bytes_of("allow") + seq![32u8] + crate::ip::fmt_ip(addr);
        lemma_sub_writable(bytes_of("allow"), crate::ip::fmt_ip(addr));
        lemma_line_ip(v, sub);
        lemma_ip_sub_allow(v.ip, addr);
        let v2 = ConfigView {
            ip: IpFilterView { v6_allowed: v.ip.v6_allowed.push(xs[0]), ..v.ip },
            ..v
        };
        assert(ls.drop_first() =~= xs.drop_first().map_values(
            |a: u128| ip_allow_line(IpAddress::V6(a)),
        ));
        lemma_canonical_v6_allow(v2, xs.drop_first());
        assert(v2.ip.v6_allowed + xs.drop_first() =~= v.ip.v6_allowed + xs);
        assert(ConfigView {
            ip: IpFilterView { v6_allowed: v2.ip.v6_allowed + xs.drop_first(), ..v2.ip },
            ..v2
        } =~~= (ConfigView {
            ip: IpFilterView { v6_allowed: v.ip.v6_allowed + xs, ..v.ip },
            ..v
        }));
    }
}

/// Applying the canonical `ip ban` lines of IPv4 addresses adds
/// exactly those addresses.
proof fn lemma_canonical_v4_ban(v: ConfigView, xs: Seq<u32>)
    ensures
        lines_effect(v, xs.map_values(|a: u32| ip_ban_line(IpAddress::V4(a)))) == Some(
            ConfigView { ip: IpFilterView { v4_banned: v.ip.v4_banned + xs, ..v.ip }, ..v },
        ),
    decreases xs.len(),
{
    let ls = xs.map_values(|a: u32| ip_ban_line(IpAddress::V4(a)));
    if xs.len() == 0 {
        assert(v.ip.v4_banned + xs =~= v.ip.v4_banned);
        assert(ConfigView { ip: IpFilterView { v4_banned: v.ip.v4_banned + xs, ..v.ip }, ..v }
            =~~= v);
    } else {
        let addr = IpAddress::V4(xs[0]);
        assert(ls[0] == ip_ban_line(addr));
        crate::ip::lemma_fmt_ip_bytes(addr);
        lemma_addr_writable(crate::ip::fmt_ip(addr));
        lemma_keyword_bytes();
        let sub = bytes_of("ban") + seq![32u8] + crate::ip::fmt_ip(addr);
        lemma_sub_writable(bytes_of("ban"), crate::ip::fmt_ip(addr));
        lemma_line_ip(v, sub);
        lemma_ip_sub_ban(v.ip, addr);
        let v2 = ConfigView {
            ip: IpFilterView { v4_banned: v.ip.v4_banned.push(xs[0]), ..v.ip },
            ..v
        };
        assert(ls.drop_first() =~= xs.drop_first().map_values(
            |a: u32| ip_ban_line(IpAddress::V4(a)),
        ));
        lemma_canonical_v4_ban(v2, xs.drop_first());
        assert(v2.ip.v4_banned + xs.drop_first() =~= v.ip.v4_banned + xs);
        assert(ConfigView {
            ip: IpFilterView { v4_banned: v2.ip.v4_banned + xs.drop_first(), ..v2.ip },
            ..v2
        } =~~= (ConfigView { ip: IpFilterView { v4_banned: v.ip.v4_banned + xs, ..v.ip }, ..v }));
    }
}

/// Applying the canonical `ip ban` lines of IPv6 addresses adds
/// exactly those addresses.
proof fn lemma_canonical_v6_ban(v: ConfigView, xs: Seq<u128>)
    ensures
        lines_effect(v, xs.map_values(|a: u128| ip_ban_line(IpAddress::V6(a)))) == Some(
            ConfigView { ip: IpFilterView { v6_banned: v.ip.v6_banned + xs, ..v.ip }, ..v },
        ),
    decreases xs.len(),
{
    let ls = xs.map_values(|a: u128| ip_ban_line(IpAddress::V6(a)));
    if xs.len() == 0 {
        assert(v.ip.v6_banned + xs =~= v.ip.v6_banned);
        assert(ConfigView { ip: IpFilterView { v6_banned: v.ip.v6_banned + xs, ..v.ip }, ..v }
            =~~= v);
    } else {
        let addr = IpAddress::V6(xs[0]);
        assert(ls[0] == ip_ban_line(addr));
        crate::ip::lemma_fmt_ip_bytes(addr);
        lemma_addr_writable(crate::ip::fmt_ip(addr));
        lemma_keyword_bytes();
        let sub = bytes_of("ban") + seq![32u8] + crate::ip::fmt_ip(addr);
        lemma_sub_writable(bytes_of("ban"), crate::ip::fmt_ip(addr));
        lemma_line_ip(v, sub);
        lemma_ip_sub_ban(v.ip, addr);
        let v2 = ConfigView {
            ip: IpFilterView { v6_banned: v.ip.v6_banned.push(xs[0]), ..v.ip },
            ..v
        };
        assert(ls.drop_first() =~= xs.drop_first().map_values(
            |a: u128| ip_ban_line(IpAddress::V6(a)),
        ));
        lemma_canonical_v6_ban(v2, xs.drop_first());
        assert(v2.ip.v6_banned + xs.drop_first() =~= v.ip.v6_banned + xs);
        assert(ConfigView {
            ip: IpFilterView { v6_banned: v2.ip.v6_banned + xs.drop_first(), ..v2.ip },
            ..v2
        } =~~= (ConfigView { ip: IpFilterView { v6_banned: v.ip.v6_banned + xs, ..v.ip }, ..v }));
    }
}

/// Applying the canonical `ip ban-range` lines of normalized IPv4
/// ranges adds exactly those ranges.
proof fn lemma_canonical_v4_ranges(v: ConfigView, xs: Seq<(u32, u32)>)
    requires
        forall|i: int| 0 <= i < xs.len() ==> (#[trigger] xs[i]).0 <= xs[i].1,
    ensures
        lines_effect(
            v,
            xs.map_values(|r: (u32, u32)| ip_range_line(IpAddress::V4(r.0), IpAddress::V4(r.1))),
        ) == Some(
            ConfigView {
                ip: IpFilterView { v4_banned_ranges: v.ip.v4_banned_ranges + xs, ..v.ip },
                ..v
            },
        ),
    decreases xs.len(),
{
    let f = |r: (u32, u32)| ip_range_line(IpAddress::V4(r.0), IpAddress::V4(r.1));
    let ls = xs.map_values(f);
    if xs.len() == 0 {
        assert(v.ip.v4_banned_ranges + xs =~= v.ip.v4_banned_ranges);
        assert(ConfigView {
            ip: IpFilterView { v4_banned_ranges: v.ip.v4_banned_ranges + xs, ..v.ip },
            ..v
        } =~~= v);
    } else {
        let (lo, hi) = xs[0];
        assert(ls[0] == f(xs[0]));
        crate::ip::lemma_fmt_ip_bytes(IpAddress::V4(lo));
        crate::ip::lemma_fmt_ip_bytes(IpAddress::V4(hi));
        lemma_keyword_bytes();
        let flo = crate::ip::fmt_ipv4(lo);
        let fhi = crate::ip::fmt_ipv4(hi);
        let arg = flo + seq![32u8] + fhi;
        let sub = bytes_of("ban-range") + seq![32u8] + arg;
        lemma_addr_writable(flo);
        lemma_addr_writable(fhi);
        assert(writable_text(arg)) by {
            assert(arg[0] == flo[0]);
            assert(arg.last() == fhi.last());
            assert forall|j: int| 0 <= j < arg.len() implies #[trigger] arg[j] != 10 by {
                if j < flo.len() {
                    assert(arg[j] == flo[j]);
                } else if j == flo.len() {
                    assert(arg[j] == 32);
                } else {
                    assert(arg[j] == fhi[j - flo.len() - 1]);
                }
            }
        }
        lemma_sub_writable(bytes_of("ban-range"), arg);
        lemma_line_ip(v, sub);
        lemma_ip_sub_ban_range_v4(v.ip, lo, hi);
        let v2 = ConfigView {
            ip: IpFilterView {
                v4_banned_ranges: v.ip.v4_banned_ranges.push((lo, hi)),
                ..v.ip
            },
            ..v
        };
        assert(ls.drop_first() =~= xs.drop_first().map_values(f));
        lemma_canonical_v4_ranges(v2, xs.drop_first());
        assert(v2.ip.v4_banned_ranges + xs.drop_first() =~= v.ip.v4_banned_ranges + xs);
        assert(ConfigView {
            ip: IpFilterView {
                v4_banned_ranges: v2.ip.v4_banned_ranges + xs.drop_first(),
                ..v2.ip
            },
            ..v2
        } =~~= (ConfigView {
            ip: IpFilterView { v4_banned_ranges: v.ip.v4_banned_ranges + xs, ..v.ip },
            ..v
        }));
    }
}

/// Applying the canonical `ip ban-range` lines of normalized IPv6
/// ranges adds exactly those ranges.
proof fn lemma_canonical_v6_ranges(v: ConfigView, xs: Seq<(u128, u128)>)
    requires
        forall|i: int| 0 <= i < xs.len() ==> (#[trigger] xs[i]).0 <= xs[i].1,
    ensures
        lines_effect(
            v,
            xs.map_values(
                |r: (u128, u128)| ip_range_line(IpAddress::V6(r.0), IpAddress::V6(r.1)),
            ),
        ) == Some(
            ConfigView {
                ip: IpFilterView { v6_banned_ranges: v.ip.v6_banned_ranges + xs, ..v.ip },
                ..v
            },
        ),
    decreases xs.len(),
{
    let f = |r: (u128, u128)| ip_range_line(IpAddress::V6(r.0), IpAddress::V6(r.1));
    let ls = xs.map_values(f);
    if xs.len() == 0 {
        assert(v.ip.v6_banned_ranges + xs =~= v.ip.v6_banned_ranges);
        assert(ConfigView {
            ip: IpFilterView { v6_banned_ranges: v.ip.v6_banned_ranges + xs, ..v.ip },
            ..v
        } =~~= v);
    } else {
        let (lo, hi) = xs[0];
        assert(ls[0] == f(xs[0]));
        crate::ip::lemma_fmt_ip_bytes(IpAddress::V6(lo));
        crate::ip::lemma_fmt_ip_bytes(IpAddress::V6(hi));
        lemma_keyword_bytes();
        let flo = crate::ip::fmt_ipv6(lo);
        let fhi = crate::ip::fmt_ipv6(hi);
        let arg = flo + seq![32u8] + fhi;
        let sub = bytes_of("ban-range") + seq![32u8] + arg;
        lemma_addr_writable(flo);
        lemma_addr_writable(fhi);
        assert(writable_text(arg)) by {
            assert(arg[0] == flo[0]);
            assert(arg.last() == fhi.last());
            assert forall|j: int| 0 <= j < arg.len() implies #[trigger] arg[j] != 10 by {
                if j < flo.len() {
                    assert(arg[j] == flo[j]);
                } else if j == flo.len() {
                    assert(arg[j] == 32);
                } else {
                    assert(arg[j] == fhi[j - flo.len() - 1]);
                }
            }
        }
        lemma_sub_writable(bytes_of("ban-range"), arg);
        lemma_line_ip(v, sub);
        lemma_ip_sub_ban_range_v6(v.ip, lo, hi);
        let v2 = ConfigView {
            ip: IpFilterView {
                v6_banned_ranges: v.ip.v6_banned_ranges.push((lo, hi)),
                ..v.ip
            },
            ..v
        };
        assert(ls.drop_first() =~= xs.drop_first().map_values(f));
        lemma_canonical_v6_ranges(v2, xs.drop_first());
        assert(v2.ip.v6_banned_ranges + xs.drop_first() =~= v.ip.v6_banned_ranges + xs);
        assert(ConfigView {
            ip: IpFilterView {
                v6_banned_ranges: v2.ip.v6_banned_ranges + xs.drop_first(),
                ..v2.ip
            },
            ..v2
        } =~~= (ConfigView {
            ip: IpFilterView { v6_banned_ranges: v.ip.v6_banned_ranges + xs, ..v.ip },
            ..v
        }));
    }
}


/// The canonical `nickname allow` line of one nickname.
pub open spec fn nick_allow_line(nick: Seq<char>) -> Seq<u8> {
    bytes_of("nickname") + seq![32u8] + (bytes_of("allow") + seq![32u8] + vstd::utf8::encode_utf8(
        nick,
    ))
}

/// The canonical `nickname ban` line of one pattern.
pub open spec fn nick_ban_line(pattern: Seq<char>) -> Seq<u8> {
    bytes_of("nickname") + seq![32u8] + (bytes_of("ban") + seq![32u8] + vstd::utf8::encode_utf8(
        pattern,
    ))
}

/// The canonical `message ban` line of one pattern.
pub open spec fn msg_ban_line(pattern: Seq<char>) -> Seq<u8> {
    bytes_of("message") + seq![32u8] + (bytes_of("ban") + seq![32u8] + vstd::utf8::encode_utf8(
        pattern,
    ))
}

/// Applying the canonical `nickname allow` lines adds exactly those
/// nicknames.
proof fn lemma_canonical_nick_allow(v: ConfigView, xs: Seq<Seq<char>>)
    requires
        forall|i: int|
            0 <= i < xs.len() ==> writable_text(vstd::utf8::encode_utf8(#[trigger] xs[i])),
    ensures
        lines_effect(v, xs.map_values(|n: Seq<char>| nick_allow_line(n))) == Some(
            ConfigView {
                nickname: NicknameFilterView { allowed: v.nickname.allowed + xs, ..v.nickname },
                ..v
            },
        ),
    decreases xs.len(),
{
    let ls = xs.map_values(|n: Seq<char>| nick_allow_line(n));
    if xs.len() == 0 {
        assert(v.nickname.allowed + xs =~= v.nickname.allowed);
        assert(ConfigView {
            nickname: NicknameFilterView { allowed: v.nickname.allowed + xs, ..v.nickname },
            ..v
        } =~~= v);
    } else {
        assert(ls[0] == nick_allow_line(xs[0]));
        lemma_keyword_bytes();
        let sub = bytes_of("allow") + seq![32u8] + vstd::utf8::encode_utf8(xs[0]);
        lemma_sub_writable(bytes_of("allow"), vstd::utf8::encode_utf8(xs[0]));
        lemma_line_nickname(v, sub);
        lemma_nick_sub_allow(v.nickname, xs[0]);
        let v2 = ConfigView {
            nickname: NicknameFilterView {
                allowed: v.nickname.allowed.push(xs[0]),
                ..v.nickname
            },
            ..v
        };
        assert(ls.drop_first() =~= xs.drop_first().map_values(|n: Seq<char>| nick_allow_line(n)));
        lemma_canonical_nick_allow(v2, xs.drop_first());
        assert(v2.nickname.allowed + xs.drop_first() =~= v.nickname.allowed + xs);
        assert(ConfigView {
            nickname: NicknameFilterView {
                allowed: v2.nickname.allowed + xs.drop_first(),
                ..v2.nickname
            },
            ..v2
        } =~~= (ConfigView {
            nickname: NicknameFilterView { allowed: v.nickname.allowed + xs, ..v.nickname },
            ..v
        }));
    }
}

/// Applying the canonical `nickname ban` lines adds exactly those
/// patterns.
proof fn lemma_canonical_nick_ban(v: ConfigView, xs: Seq<Seq<char>>)
    requires
        forall|i: int|
            0 <= i < xs.len() ==> writable_text(vstd::utf8::encode_utf8(#[trigger] xs[i]))
                && crate::patterns::pattern_compiles(xs[i]),
    ensures
        lines_effect(v, xs.map_values(|n: Seq<char>| nick_ban_line(n))) == Some(
            ConfigView {
                nickname: NicknameFilterView { banned: v.nickname.banned + xs, ..v.nickname },
                ..v
            },
        ),
    decreases xs.len(),
{
    let ls = xs.map_values(|n: Seq<char>| nick_ban_line(n));
    if xs.len() == 0 {
        assert(v.nickname.banned + xs =~= v.nickname.banned);
        assert(ConfigView {
            nickname: NicknameFilterView { banned: v.nickname.banned + xs, ..v.nickname },
            ..v
        } =~~= v);
    } else {
        assert(ls[0] == nick_ban_line(xs[0]));
        lemma_keyword_bytes();
        let sub = bytes_of("ban") + seq![32u8] + vstd::utf8::encode_utf8(xs[0]);
        lemma_sub_writable(bytes_of("ban"), vstd::utf8::encode_utf8(xs[0]));
        lemma_line_nickname(v, sub);
        lemma_nick_sub_ban(v.nickname, xs[0]);
        let v2 = ConfigView {
            nickname: NicknameFilterView { banned: v.nickname.banned.push(xs[0]), ..v.nickname },
            ..v
        };
        assert(ls.drop_first() =~= xs.drop_first().map_values(|n: Seq<char>| nick_ban_line(n)));
        lemma_canonical_nick_ban(v2, xs.drop_first());
        assert(v2.nickname.banned + xs.drop_first() =~= v.nickname.banned + xs);
        assert(ConfigView {
            nickname: NicknameFilterView {
                banned: v2.nickname.banned + xs.drop_first(),
                ..v2.nickname
            },
            ..v2
        } =~~= (ConfigView {
            nickname: NicknameFilterView { banned: v.nickname.banned + xs, ..v.nickname },
            ..v
        }));
    }
}

/// Applying the canonical `message ban` lines adds exactly those
/// patterns.
proof fn lemma_canonical_msg_ban(v: ConfigView, xs: Seq<Seq<char>>)
    requires
        forall|i: int|
            0 <= i < xs.len() ==> writable_text(vstd::utf8::encode_utf8(#[trigger] xs[i]))
                && crate::patterns::pattern_compiles(xs[i]),
    ensures
        lines_effect(v, xs.map_values(|n: Seq<char>| msg_ban_line(n))) == Some(
            ConfigView {
                message: MessageFilterView { banned: v.message.banned + xs, ..v.message },
                ..v
            },
        ),
    decreases xs.len(),
{
    let ls = xs.map_values(|n: Seq<char>| msg_ban_line(n));
    if xs.len() == 0 {
        assert(v.message.banned + xs =~= v.message.banned);
        assert(ConfigView {
            message: MessageFilterView { banned: v.message.banned + xs, ..v.message },
            ..v
        } =~~= v);
    } else {
        assert(ls[0] == msg_ban_line(xs[0]));
        lemma_keyword_bytes();
        let sub = bytes_of("ban") + seq![32u8] + vstd::utf8::encode_utf8(xs[0]);
        lemma_sub_writable(bytes_of("ban"), vstd::utf8::encode_utf8(xs[0]));
        lemma_line_message(v, sub);
        lemma_msg_sub_ban(v.message, xs[0]);
        let v2 = ConfigView {
            message: MessageFilterView { banned: v.message.banned.push(xs[0]), ..v.message },
            ..v
        };
        assert(ls.drop_first() =~= xs.drop_first().map_values(|n: Seq<char>| msg_ban_line(n)));
        lemma_canonical_msg_ban(v2, xs.drop_first());
        assert(v2.message.banned + xs.drop_first() =~= v.message.banned + xs);
        assert(ConfigView {
            message: MessageFilterView {
                banned: v2.message.banned + xs.drop_first(),
                ..v2.message
            },
            ..v2
        } =~~= (ConfigView {
            message: MessageFilterView { banned: v.message.banned + xs, ..v.message },
            ..v
        }));
    }
}


/// The canonical `nickname min-length` line.
pub open spec fn nick_min_line(n: u8) -> Seq<u8> {
    bytes_of("nickname") + seq![32u8] + (bytes_of("min-length") + seq![32u8] + fmt_dec(n as int))
}

/// The canonical `nickname max-length` line.
pub open spec fn nick_max_line(n: u8) -> Seq<u8> {
    bytes_of("nickname") + seq![32u8] + (bytes_of("max-length") + seq![32u8] + fmt_dec(n as int))
}

/// The canonical `message min-length` line.
pub open spec fn msg_min_line(n: u16) -> Seq<u8> {
    bytes_of("message") + seq![32u8] + (bytes_of("min-length") + seq![32u8] + fmt_dec(n as int))
}

/// The canonical `message max-length` line.
pub open spec fn msg_max_line(n: u16) -> Seq<u8> {
    bytes_of("message") + seq![32u8] + (bytes_of("max-length") + seq![32u8] + fmt_dec(n as int))
}

/// Decimal text makes writable text.
proof fn lemma_dec_writable(n: int)
    requires
        n >= 0,
    ensures
        writable_text(fmt_dec(n)),
{
    lemma_fmt_dec(n);
}

/// Applying the four canonical bound lines sets exactly those bounds.
proof fn lemma_canonical_bounds(v: ConfigView, nmin: u8, nmax: u8, mmin: u16, mmax: u16)
    requires
        1 <= nmin <= nmax,
        nmin <= v.nickname.max_len,
        1 <= mmin <= mmax,
        mmin <= v.message.max_len,
    ensures
        lines_effect(
            v,
            seq![nick_min_line(nmin), nick_max_line(nmax), msg_min_line(mmin), msg_max_line(mmax)],
        ) == Some(
            ConfigView {
                nickname: NicknameFilterView { min_len: nmin, max_len: nmax, ..v.nickname },
                message: MessageFilterView { min_len: mmin, max_len: mmax, ..v.message },
                ..v
            },
        ),
{
    lemma_keyword_bytes();
    let ls = seq![
        nick_min_line(nmin),
        nick_max_line(nmax),
        msg_min_line(mmin),
        msg_max_line(mmax),
    ];
    lemma_dec_writable(nmin as int);
    lemma_dec_writable(nmax as int);
    lemma_dec_writable(mmin as int);
    lemma_dec_writable(mmax as int);
    lemma_sub_writable(bytes_of("min-length"), fmt_dec(nmin as int));
    lemma_sub_writable(bytes_of("max-length"), fmt_dec(nmax as int));
    lemma_sub_writable(bytes_of("min-length"), fmt_dec(mmin as int));
    lemma_sub_writable(bytes_of("max-length"), fmt_dec(mmax as int));
    lemma_line_nickname(v, bytes_of("min-length") + seq![32u8] + fmt_dec(nmin as int));
    lemma_nick_sub_min(v.nickname, nmin);
    let v1 = ConfigView { nickname: NicknameFilterView { min_len: nmin, ..v.nickname }, ..v };
    lemma_line_nickname(v1, bytes_of("max-length") + seq![32u8] + fmt_dec(nmax as int));
    lemma_nick_sub_max(v1.nickname, nmax);
    let v2 = ConfigView { nickname: NicknameFilterView { max_len: nmax, ..v1.nickname }, ..v1 };
    lemma_line_message(v2, bytes_of("min-length") + seq![32u8] + fmt_dec(mmin as int));
    lemma_msg_sub_min(v2.message, mmin);
    let v3 = ConfigView { message: MessageFilterView { min_len: mmin, ..v2.message }, ..v2 };
    lemma_line_message(v3, bytes_of("max-length") + seq![32u8] + fmt_dec(mmax as int));
    lemma_msg_sub_max(v3.message, mmax);
    let v4 = ConfigView { message: MessageFilterView { max_len: mmax, ..v3.message }, ..v3 };
    let l4 = seq![msg_max_line(mmax)];
    let l3 = seq![msg_min_line(mmin), msg_max_line(mmax)];
    let l2 = seq![nick_max_line(nmax), msg_min_line(mmin), msg_max_line(mmax)];
    assert(l4.drop_first() =~= Seq::<Seq<u8>>::empty());
    assert(lines_effect(v4, Seq::<Seq<u8>>::empty()) == Some(v4));
    assert(l4[0] == msg_max_line(mmax));
    assert(lines_effect(v3, l4) == Some(v4));
    assert(l3[0] == msg_min_line(mmin));
    assert(l3.drop_first() =~= l4);
    assert(lines_effect(v2, l3) == Some(v4));
    assert(l2[0] == nick_max_line(nmax));
    assert(l2.drop_first() =~= l3);
    assert(lines_effect(v1, l2) == Some(v4));
    assert(ls[0] == nick_min_line(nmin));
    assert(ls.drop_first() =~= l2);
    assert(lines_effect(v, ls) == Some(v4));
    assert(v4 =~~= (ConfigView {
        nickname: NicknameFilterView { min_len: nmin, max_len: nmax, ..v.nickname },
        message: MessageFilterView { min_len: mmin, max_len: mmax, ..v.message },
        ..v
    }));
}

/// Configuration values that the canonical text can carry: bounds in
/// order, ranges normalized, every pattern valid, and every stored
/// text safe to put on one line.
pub open spec fn config_writable(v: ConfigView) -> bool {
    &&& 1 <= v.nickname.min_len <= v.nickname.max_len
    &&& 1 <= v.message.min_len <= v.message.max_len
    &&& forall|i: int|
        0 <= i < v.ip.v4_banned_ranges.len() ==> (#[trigger] v.ip.v4_banned_ranges[i]).0
            <= v.ip.v4_banned_ranges[i].1
    &&& forall|i: int|
        0 <= i < v.ip.v6_banned_ranges.len() ==> (#[trigger] v.ip.v6_banned_ranges[i]).0
            <= v.ip.v6_banned_ranges[i].1
    &&& forall|i: int|
        0 <= i < v.nickname.allowed.len() ==> writable_text(
            vstd::utf8::encode_utf8(#[trigger] v.nickname.allowed[i]),
        )
    &&& forall|i: int|
        0 <= i < v.nickname.banned.len() ==> writable_text(
            vstd::utf8::encode_utf8(#[trigger] v.nickname.banned[i]),
        ) && crate::patterns::pattern_compiles(v.nickname.banned[i])
    &&& forall|i: int|
        0 <= i < v.message.banned.len() ==> writable_text(
            vstd::utf8::encode_utf8(#[trigger] v.message.banned[i]),
        ) && crate::patterns::pattern_compiles(v.message.banned[i])
}

/// The canonical lines of a configuration: its whole content, one
/// directive per line.
pub open spec fn canonical_lines(v: ConfigView) -> Seq<Seq<u8>> {
    v.listen.map_values(|sa: SocketAddress| listen_line(sa)) + v.ip.v4_allowed.map_values(
        |a: u32| ip_allow_line(IpAddress::V4(a)),
    ) + v.ip.v6_allowed.map_values(|a: u128| ip_allow_line(IpAddress::V6(a)))
        + v.ip.v4_banned.map_values(|a: u32| ip_ban_line(IpAddress::V4(a)))
        + v.ip.v6_banned.map_values(|a: u128| ip_ban_line(IpAddress::V6(a)))
        + v.ip.v4_banned_ranges.map_values(
        |r: (u32, u32)| ip_range_line(IpAddress::V4(r.0), IpAddress::V4(r.1)),
    ) + v.ip.v6_banned_ranges.map_values(
        |r: (u128, u128)| ip_range_line(IpAddress::V6(r.0), IpAddress::V6(r.1)),
    ) + seq![
        nick_min_line(v.nickname.min_len),
        nick_max_line(v.nickname.max_len),
        msg_min_line(v.message.min_len),
        msg_max_line(v.message.max_len),
    ] + v.nickname.allowed.map_values(|n: Seq<char>| nick_allow_line(n))
        + v.nickname.banned.map_values(|n: Seq<char>| nick_ban_line(n))
        + v.message.banned.map_values(|n: Seq<char>| msg_ban_line(n))
}

/// Law: a configuration written in its canonical form and applied back
/// to a default configuration yields that configuration again — the
/// round trip of writing and parsing a merged configuration.
#[verifier::rlimit(100)]
pub proof fn lemma_config_round_trip(v: ConfigView)
    requires
        config_writable(v),
    ensures
        lines_effect(Config::new_view(), canonical_lines(v)) matches Some(w) && w =~~= v,
{
    let v0 = Config::new_view();
    let s1 = v.listen.map_values(|sa: SocketAddress| listen_line(sa));
    let s2 = v.ip.v4_allowed.map_values(|a: u32| ip_allow_line(IpAddress::V4(a)));
    let s3 = v.ip.v6_allowed.map_values(|a: u128| ip_allow_line(IpAddress::V6(a)));
    let s4 = v.ip.v4_banned.map_values(|a: u32| ip_ban_line(IpAddress::V4(a)));
    let s5 = v.ip.v6_banned.map_values(|a: u128| ip_ban_line(IpAddress::V6(a)));
    let s6 = v.ip.v4_banned_ranges.map_values(
        |r: (u32, u32)| ip_range_line(IpAddress::V4(r.0), IpAddress::V4(r.1)),
    );
    let s7 = v.ip.v6_banned_ranges.map_values(
        |r: (u128, u128)| ip_range_line(IpAddress::V6(r.0), IpAddress::V6(r.1)),
    );
    let s8 = seq![
        nick_min_line(v.nickname.min_len),
        nick_max_line(v.nickname.max_len),
        msg_min_line(v.message.min_len),
        msg_max_line(v.message.max_len),
    ];
    let s9 = v.nickname.allowed.map_values(|n: Seq<char>| nick_allow_line(n));
    let s10 = v.nickname.banned.map_values(|n: Seq<char>| nick_ban_line(n));
    let s11 = v.message.banned.map_values(|n: Seq<char>| msg_ban_line(n));

    lemma_canonical_listen(v0, v.listen);
    let w1 = ConfigView { listen: v0.listen + v.listen, ..v0 };
    lemma_lines_append(v0, s1, s2);
    lemma_canonical_v4_allow(w1, v.ip.v4_allowed);
    let w2 = ConfigView {
        ip: IpFilterView { v4_allowed: w1.ip.v4_allowed + v.ip.v4_allowed, ..w1.ip },
        ..w1
    };
    lemma_lines_append(v0, s1 + s2, s3);
    lemma_canonical_v6_allow(w2, v.ip.v6_allowed);
    let w3 = ConfigView {
        ip: IpFilterView { v6_allowed: w2.ip.v6_allowed + v.ip.v6_allowed, ..w2.ip },
        ..w2
    };
    lemma_lines_append(v0, s1 + s2 + s3, s4);
    lemma_canonical_v4_ban(w3, v.ip.v4_banned);
    let w4 = ConfigView {
        ip: IpFilterView { v4_banned: w3.ip.v4_banned + v.ip.v4_banned, ..w3.ip },
        ..w3
    };
    lemma_lines_append(v0, s1 + s2 + s3 + s4, s5);
    lemma_canonical_v6_ban(w4, v.ip.v6_banned);
    let w5 = ConfigView {
        ip: IpFilterView { v6_banned: w4.ip.v6_banned + v.ip.v6_banned, ..w4.ip },
        ..w4
    };
    lemma_lines_append(v0, s1 + s2 + s3 + s4 + s5, s6);
    lemma_canonical_v4_ranges(w5, v.ip.v4_banned_ranges);
    let w6 = ConfigView {
        ip: IpFilterView {
            v4_banned_ranges: w5.ip.v4_banned_ranges + v.ip.v4_banned_ranges,
            ..w5.ip
        },
        ..w5
    };
    lemma_lines_append(v0, s1 + s2 + s3 + s4 + s5 + s6, s7);
    lemma_canonical_v6_ranges(w6, v.ip.v6_banned_ranges);
    let w7 = ConfigView {
        ip: IpFilterView {
            v6_banned_ranges: w6.ip.v6_banned_ranges + v.ip.v6_banned_ranges,
            ..w6.ip
        },
        ..w6
    };
    lemma_lines_append(v0, s1 + s2 + s3 + s4 + s5 + s6 + s7, s8);
    lemma_canonical_bounds(
        w7,
        v.nickname.min_len,
        v.nickname.max_len,
        v.message.min_len,
        v.message.max_len,
    );
    let w8 = ConfigView {
        nickname: NicknameFilterView {
            min_len: v.nickname.min_len,
            max_len: v.nickname.max_len,
            ..w7.nickname
        },
        message: MessageFilterView {
            min_len: v.message.min_len,
            max_len: v.message.max_len,
            ..w7.message
        },
        ..w7
    };
    lemma_lines_append(v0, s1 + s2 + s3 + s4 + s5 + s6 + s7 + s8, s9);
    lemma_canonical_nick_allow(w8, v.nickname.allowed);
    let w9 = ConfigView {
        nickname: NicknameFilterView {
            allowed: w8.nickname.allowed + v.nickname.allowed,
            ..w8.nickname
        },
        ..w8
    };
    lemma_lines_append(v0, s1 + s2 + s3 + s4 + s5 + s6 + s7 + s8 + s9, s10);
    lemma_canonical_nick_ban(w9, v.nickname.banned);
    let w10 = ConfigView {
        nickname: NicknameFilterView {
            banned: w9.nickname.banned + v.nickname.banned,
            ..w9.nickname
        },
        ..w9
    };
    lemma_lines_append(v0, s1 + s2 + s3 + s4 + s5 + s6 + s7 + s8 + s9 + s10, s11);
    lemma_canonical_msg_ban(w10, v.message.banned);
    let w11 = ConfigView {
        message: MessageFilterView {
            banned: w10.message.banned + v.message.banned,
            ..w10.message
        },
        ..w10
    };
    assert(canonical_lines(v) == s1 + s2 + s3 + s4 + s5 + s6 + s7 + s8 + s9 + s10 + s11);
    assert(w11.listen =~= v.listen);
    assert(w11.ip.v4_allowed =~= v.ip.v4_allowed);
    assert(w11.ip.v6_allowed =~= v.ip.v6_allowed);
    assert(w11.ip.v4_banned =~= v.ip.v4_banned);
    assert(w11.ip.v6_banned =~= v.ip.v6_banned);
    assert(w11.ip.v4_banned_ranges =~= v.ip.v4_banned_ranges);
    assert(w11.ip.v6_banned_ranges =~= v.ip.v6_banned_ranges);
    assert(w11.nickname.allowed =~= v.nickname.allowed);
    assert(w11.nickname.banned =~= v.nickname.banned);
    assert(w11.message.banned =~= v.message.banned);
    assert(w11 =~~= v);
}


/// Text that is writable is in particular newline-free.
proof fn lemma_writable_line_ok(b: Seq<u8>)
    requires
        writable_text(b),
    ensures
        line_ok(b),
{
}

/// Address bytes make a sound keyword-shaped token.
proof fn lemma_addr_kw_ok(b: Seq<u8>)
    requires
        b.len() > 0,
        forall|j: int| 0 <= j < b.len() ==> crate::ip::addr_byte(#[trigger] b[j]),
    ensures
        kw_ok(b),
{
}

/// Newline-free lines are closed under concatenation of line lists.
proof fn lemma_lines_ok_concat(l1: Seq<Seq<u8>>, l2: Seq<Seq<u8>>)
    requires
        forall|i: int| 0 <= i < l1.len() ==> line_ok(#[trigger] l1[i]),
        forall|i: int| 0 <= i < l2.len() ==> line_ok(#[trigger] l2[i]),
    ensures
        forall|i: int| 0 <= i < (l1 + l2).len() ==> line_ok(#[trigger] (l1 + l2)[i]),
{
    assert forall|i: int| 0 <= i < (l1 + l2).len() implies line_ok(#[trigger] (l1 + l2)[i]) by {
        if i < l1.len() {
            assert((l1 + l2)[i] == l1[i]);
        } else {
            assert((l1 + l2)[i] == l2[i - l1.len()]);
        }
    }
}

/// No canonical line holds a newline.
#[verifier::rlimit(100)]
proof fn lemma_canonical_lines_ok(v: ConfigView)
    requires
        config_writable(v),
    ensures
        forall|i: int|
            0 <= i < canonical_lines(v).len() ==> line_ok(#[trigger] canonical_lines(v)[i]),
{
    lemma_keyword_bytes();
    let s1 = v.listen.map_values(|sa: SocketAddress| listen_line(sa));
    let s2 = v.ip.v4_allowed.map_values(|a: u32| ip_allow_line(IpAddress::V4(a)));
    let s3 = v.ip.v6_allowed.map_values(|a: u128| ip_allow_line(IpAddress::V6(a)));
    let s4 = v.ip.v4_banned.map_values(|a: u32| ip_ban_line(IpAddress::V4(a)));
    let s5 = v.ip.v6_banned.map_values(|a: u128| ip_ban_line(IpAddress::V6(a)));
    let s6 = v.ip.v4_banned_ranges.map_values(
        |r: (u32, u32)| ip_range_line(IpAddress::V4(r.0), IpAddress::V4(r.1)),
    );
    let s7 = v.ip.v6_banned_ranges.map_values(
        |r: (u128, u128)| ip_range_line(IpAddress::V6(r.0), IpAddress::V6(r.1)),
    );
    let s8 = seq![
        nick_min_line(v.nickname.min_len),
        nick_max_line(v.nickname.max_len),
        msg_min_line(v.message.min_len),
        msg_max_line(v.message.max_len),
    ];
    let s9 = v.nickname.allowed.map_values(|n: Seq<char>| nick_allow_line(n));
    let s10 = v.nickname.banned.map_values(|n: Seq<char>| nick_ban_line(n));
    let s11 = v.message.banned.map_values(|n: Seq<char>| msg_ban_line(n));
    assert forall|i: int| 0 <= i < s1.len() implies line_ok(#[trigger] s1[i]) by {
        let sa = v.listen[i];
        lemma_fmt_sock_addr_bytes(sa);
        lemma_addr_writable(fmt_sock_addr(sa));
        lemma_sub_writable(bytes_of("listen"), fmt_sock_addr(sa));
    }
    assert forall|i: int| 0 <= i < s2.len() implies line_ok(#[trigger] s2[i]) by {
        lemma_ip_arg_line_ok(IpAddress::V4(v.ip.v4_allowed[i]), bytes_of("allow"));
    }
    assert forall|i: int| 0 <= i < s3.len() implies line_ok(#[trigger] s3[i]) by {
        lemma_ip_arg_line_ok(IpAddress::V6(v.ip.v6_allowed[i]), bytes_of("allow"));
    }
    assert forall|i: int| 0 <= i < s4.len() implies line_ok(#[trigger] s4[i]) by {
        lemma_ip_arg_line_ok(IpAddress::V4(v.ip.v4_banned[i]), bytes_of("ban"));
    }
    assert forall|i: int| 0 <= i < s5.len() implies line_ok(#[trigger] s5[i]) by {
        lemma_ip_arg_line_ok(IpAddress::V6(v.ip.v6_banned[i]), bytes_of("ban"));
    }
    assert forall|i: int| 0 <= i < s6.len() implies line_ok(#[trigger] s6[i]) by {
        lemma_ip_range_line_ok(
            IpAddress::V4(v.ip.v4_banned_ranges[i].0),
            IpAddress::V4(v.ip.v4_banned_ranges[i].1),
        );
    }
    assert forall|i: int| 0 <= i < s7.len() implies line_ok(#[trigger] s7[i]) by {
        lemma_ip_range_line_ok(
            IpAddress::V6(v.ip.v6_banned_ranges[i].0),
            IpAddress::V6(v.ip.v6_banned_ranges[i].1),
        );
    }
    assert forall|i: int| 0 <= i < s8.len() implies line_ok(#[trigger] s8[i]) by {
        lemma_dec_writable(v.nickname.min_len as int);
        lemma_dec_writable(v.nickname.max_len as int);
        lemma_dec_writable(v.message.min_len as int);
        lemma_dec_writable(v.message.max_len as int);
        lemma_sub_writable(bytes_of("min-length"), fmt_dec(v.nickname.min_len as int));
        lemma_sub_writable(bytes_of("max-length"), fmt_dec(v.nickname.max_len as int));
        lemma_sub_writable(bytes_of("min-length"), fmt_dec(v.message.min_len as int));
        lemma_sub_writable(bytes_of("max-length"), fmt_dec(v.message.max_len as int));
        lemma_sub_writable(
            bytes_of("nickname"),
            bytes_of("min-length") + seq![32u8] + fmt_dec(v.nickname.min_len as int),
        );
        lemma_sub_writable(
            bytes_of("nickname"),
            bytes_of("max-length") + seq![32u8] + fmt_dec(v.nickname.max_len as int),
        );
        lemma_sub_writable(
            bytes_of("message"),
            bytes_of("min-length") + seq![32u8] + fmt_dec(v.message.min_len as int),
        );
        lemma_sub_writable(
            bytes_of("message"),
            bytes_of("max-length") + seq![32u8] + fmt_dec(v.message.max_len as int),
        );
    }
    assert forall|i: int| 0 <= i < s9.len() implies line_ok(#[trigger] s9[i]) by {
        let arg = vstd::utf8::encode_utf8(v.nickname.allowed[i]);
        lemma_sub_writable(bytes_of("allow"), arg);
        lemma_sub_writable(bytes_of("nickname"), bytes_of("allow") + seq![32u8] + arg);
    }
    assert forall|i: int| 0 <= i < s10.len() implies line_ok(#[trigger] s10[i]) by {
        let arg = vstd::utf8::encode_utf8(v.nickname.banned[i]);
        lemma_sub_writable(bytes_of("ban"), arg);
        lemma_sub_writable(bytes_of("nickname"), bytes_of("ban") + seq![32u8] + arg);
    }
    assert forall|i: int| 0 <= i < s11.len() implies line_ok(#[trigger] s11[i]) by {
        let arg = vstd::utf8::encode_utf8(v.message.banned[i]);
        lemma_sub_writable(bytes_of("ban"), arg);
        lemma_sub_writable(bytes_of("message"), bytes_of("ban") + seq![32u8] + arg);
    }
    lemma_lines_ok_concat(s1, s2);
    lemma_lines_ok_concat(s1 + s2, s3);
    lemma_lines_ok_concat(s1 + s2 + s3, s4);
    lemma_lines_ok_concat(s1 + s2 + s3 + s4, s5);
    lemma_lines_ok_concat(s1 + s2 + s3 + s4 + s5, s6);
    lemma_lines_ok_concat(s1 + s2 + s3 + s4 + s5 + s6, s7);
    lemma_lines_ok_concat(s1 + s2 + s3 + s4 + s5 + s6 + s7, s8);
    lemma_lines_ok_concat(s1 + s2 + s3 + s4 + s5 + s6 + s7 + s8, s9);
    lemma_lines_ok_concat(s1 + s2 + s3 + s4 + s5 + s6 + s7 + s8 + s9, s10);
    lemma_lines_ok_concat(s1 + s2 + s3 + s4 + s5 + s6 + s7 + s8 + s9 + s10, s11);
    assert(canonical_lines(v) == s1 + s2 + s3 + s4 + s5 + s6 + s7 + s8 + s9 + s10 + s11);
}

/// An `ip <sub> <addr>` line is newline-free.
proof fn lemma_ip_arg_line_ok(addr: IpAddress, kw2: Seq<u8>)
    requires
        kw_ok(kw2),
    ensures
        line_ok(
            bytes_of("ip") + seq![32u8] + (kw2 + seq![32u8] + crate::ip::fmt_ip(addr)),
        ),
{
    lemma_keyword_bytes();
    crate::ip::lemma_fmt_ip_bytes(addr);
    lemma_addr_writable(crate::ip::fmt_ip(addr));
    lemma_sub_writable(kw2, crate::ip::fmt_ip(addr));
    lemma_sub_writable(bytes_of("ip"), kw2 + seq![32u8] + crate::ip::fmt_ip(addr));
}

/// An `ip ban-range <lo> <hi>` line is newline-free.
proof fn lemma_ip_range_line_ok(lo: IpAddress, hi: IpAddress)
    ensures
        line_ok(ip_range_line(lo, hi)),
{
    lemma_keyword_bytes();
    crate::ip::lemma_fmt_ip_bytes(lo);
    crate::ip::lemma_fmt_ip_bytes(hi);
    lemma_addr_writable(crate::ip::fmt_ip(lo));
    lemma_addr_writable(crate::ip::fmt_ip(hi));
    lemma_addr_kw_ok(crate::ip::fmt_ip(lo));
    lemma_sub_writable(crate::ip::fmt_ip(lo), crate::ip::fmt_ip(hi));
    lemma_sub_writable(
        bytes_of("ban-range"),
        crate::ip::fmt_ip(lo) + seq![32u8] + crate::ip::fmt_ip(hi),
    );
    lemma_sub_writable(
        bytes_of("ip"),
        bytes_of("ban-range") + seq![32u8] + (crate::ip::fmt_ip(lo) + seq![32u8]
            + crate::ip::fmt_ip(hi)),
    );
}

/// An empty text changes nothing.
proof fn lemma_text_effect_empty(v: ConfigView)
    ensures
        config_text_effect(v, Seq::<u8>::empty()) == Some(v),
{
    reveal(config_text_effect);
    reveal(config_line_effect);
    crate::strings::lemma_find_byte_found(Seq::<u8>::empty(), 10);
}

/// Law: writing the canonical form of a merged configuration, then
/// parsing that text back from a default configuration, yields an
/// equivalent configuration.
pub proof fn lemma_config_text_round_trip(v: ConfigView)
    requires
        config_writable(v),
    ensures
        config_text_effect(Config::new_view(), join_lines(canonical_lines(v))) matches Some(w)
            && w =~~= v,
{
    lemma_canonical_lines_ok(v);
    lemma_join_effect(Config::new_view(), canonical_lines(v), Seq::<u8>::empty());
    assert(join_lines(canonical_lines(v)) + Seq::<u8>::empty() =~= join_lines(
        canonical_lines(v),
    ));
    lemma_config_round_trip(v);
    let w = lines_effect(Config::new_view(), canonical_lines(v))->0;
    lemma_text_effect_empty(w);
}


/// Writes the decimal text of a number.
pub fn append_dec(out: &mut Vec<u8>, n: u16)
    ensures
        final(out)@ == old(out)@ + fmt_dec(n as int),
    decreases n,
{
    if n <= 9 {
        out.push(48 + (n as u8));
        proof {
            assert(out@ =~= old(out)@ + fmt_dec(n as int));
        }
    } else {
        append_dec(out, n / 10);
        out.push(48 + ((n % 10) as u8));
        proof {
            assert(out@ =~= old(out)@ + fmt_dec(n as int));
        }
    }
}

/// Writes the text of a socket address.
pub fn append_sock_addr(out: &mut Vec<u8>, sa: &SocketAddress)
    ensures
        final(out)@ == old(out)@ + fmt_sock_addr(*sa),
{
    match &sa.ip {
        IpAddress::V4(a) => {
            crate::ip::append_ipv4(out, *a);
            out.push(58);
            append_dec(out, sa.port);
        },
        IpAddress::V6(a) => {
            out.push(91);
            crate::ip::append_ipv6(out, *a);
            out.push(93);
            out.push(58);
            append_dec(out, sa.port);
        },
    }
    proof {
        assert(out@ =~= old(out)@ + fmt_sock_addr(*sa));
    }
}

/// Joined lines split at a list boundary.
proof fn lemma_join_lines_concat(l1: Seq<Seq<u8>>, l2: Seq<Seq<u8>>)
    ensures
        join_lines(l1 + l2) == join_lines(l1) + join_lines(l2),
    decreases l1.len(),
{
    if l1.len() == 0 {
        assert(l1 + l2 =~= l2);
        assert(join_lines(l1) + join_lines(l2) =~= join_lines(l2));
    } else {
        assert((l1 + l2)[0] == l1[0]);
        assert((l1 + l2).drop_first() =~= l1.drop_first() + l2);
        lemma_join_lines_concat(l1.drop_first(), l2);
        assert(join_lines(l1) + join_lines(l2) =~= l1[0] + seq![10u8] + (join_lines(
            l1.drop_first(),
        ) + join_lines(l2)));
    }
}

/// One more line extends the joined text by that line and a newline.
proof fn lemma_join_lines_push(ls: Seq<Seq<u8>>, l: Seq<u8>)
    ensures
        join_lines(ls.push(l)) == join_lines(ls) + l + seq![10u8],
{
    assert(ls.push(l) =~= ls + seq![l]);
    lemma_join_lines_concat(ls, seq![l]);
    assert(seq![l].drop_first() =~= Seq::<Seq<u8>>::empty());
    assert(join_lines(Seq::<Seq<u8>>::empty()) =~= Seq::<u8>::empty());
    assert(seq![l][0] == l);
    assert(join_lines(seq![l]) =~= l + seq![10u8] + Seq::<u8>::empty());
    assert(l + seq![10u8] + Seq::<u8>::empty() =~= l + seq![10u8]);
    assert(join_lines(ls) + (l + seq![10u8]) =~= join_lines(ls) + l + seq![10u8]);
}


/// Writes one section keyword and a space.
fn write_kw(out: &mut Vec<u8>, kw: &str)
    ensures
        final(out)@ == old(out)@ + bytes_of(kw) + seq![32u8],
{
    out.extend_from_slice(kw.as_bytes());
    out.push(32);
}

/// Writes the canonical `listen` lines.
#[verifier::spinoff_prover]
#[verifier::rlimit(100)]
#[verifier::loop_isolation(false)]
fn write_listen_lines(out: &mut Vec<u8>, xs: &Vec<SocketAddress>)
    ensures
        final(out)@ == old(out)@ + join_lines(
            xs@.map_values(|sa: SocketAddress| listen_line(sa)),
        ),
{
    let ghost f = |sa: SocketAddress| listen_line(sa);
    let mut i: usize = 0;
    proof {
        assert(xs@.take(0).map_values(f) =~= Seq::<Seq<u8>>::empty());
        assert(out@ =~= old(out)@ + join_lines(xs@.take(0).map_values(f)));
    }
    while i < xs.len()
        invariant
            0 <= i <= xs@.len(),
            out@ == old(out)@ + join_lines(xs@.take(i as int).map_values(f)),
        decreases xs@.len() - i,
    {
        write_kw(out, "listen");
        append_sock_addr(out, &xs[i]);
        out.push(10);
        proof {
            assert(xs@.take(i as int + 1).map_values(f) =~~= xs@.take(i as int).map_values(
                f,
            ).push(listen_line(xs@[i as int])));
            lemma_join_lines_push(xs@.take(i as int).map_values(f), listen_line(xs@[i as int]));
            assert(out@ =~= old(out)@ + join_lines(xs@.take(i as int + 1).map_values(f)));
        }
        i += 1;
    }
    proof {
        assert(xs@.take(xs@.len() as int) =~= xs@);
        assert(xs@.take(xs@.len() as int) =~= xs@);
    }
}

/// Writes the canonical `ip allow` lines of IPv4 addresses.
#[verifier::spinoff_prover]
#[verifier::rlimit(100)]
#[verifier::loop_isolation(false)]
fn write_v4_allow_lines(out: &mut Vec<u8>, xs: &Vec<u32>)
    ensures
        final(out)@ == old(out)@ + join_lines(
            xs@.map_values(|a: u32| ip_allow_line(IpAddress::V4(a))),
        ),
{
    let ghost f = |a: u32| ip_allow_line(IpAddress::V4(a));
    let mut i: usize = 0;
    proof {
        assert(xs@.take(0).map_values(f) =~= Seq::<Seq<u8>>::empty());
        assert(out@ =~= old(out)@ + join_lines(xs@.take(0).map_values(f)));
    }
    while i < xs.len()
        invariant
            0 <= i <= xs@.len(),
            out@ == old(out)@ + join_lines(xs@.take(i as int).map_values(f)),
        decreases xs@.len() - i,
    {
        write_kw(out, "ip");
        write_kw(out, "allow");
        crate::ip::append_ipv4(out, xs[i]);
        out.push(10);
        proof {
            assert(xs@.take(i as int + 1).map_values(f) =~~= xs@.take(i as int).map_values(
                f,
            ).push(f(xs@[i as int])));
            lemma_join_lines_push(xs@.take(i as int).map_values(f), f(xs@[i as int]));
            assert(out@ =~= old(out)@ + join_lines(xs@.take(i as int + 1).map_values(f)));
        }
        i += 1;
    }
    proof {
        assert(xs@.take(xs@.len() as int) =~= xs@);
    }
}

/// Writes the canonical `ip allow` lines of IPv6 addresses.
#[verifier::spinoff_prover]
#[verifier::rlimit(100)]
#[verifier::loop_isolation(false)]
fn write_v6_allow_lines(out: &mut Vec<u8>, xs: &Vec<u128>)
    ensures
        final(out)@ == old(out)@ + join_lines(
            xs@.map_values(|a: u128| ip_allow_line(IpAddress::V6(a))),
        ),
{
    let ghost f = |a: u128| ip_allow_line(IpAddress::V6(a));
    let mut i: usize = 0;
    proof {
        assert(xs@.take(0).map_values(f) =~= Seq::<Seq<u8>>::empty());
        assert(out@ =~= old(out)@ + join_lines(xs@.take(0).map_values(f)));
    }
    while i < xs.len()
        invariant
            0 <= i <= xs@.len(),
            out@ == old(out)@ + join_lines(xs@.take(i as int).map_values(f)),
        decreases xs@.len() - i,
    {
        write_kw(out, "ip");
        write_kw(out, "allow");
        crate::ip::append_ipv6(out, xs[i]);
        out.push(10);
        proof {
            assert(xs@.take(i as int + 1).map_values(f) =~~= xs@.take(i as int).map_values(
                f,
            ).push(f(xs@[i as int])));
            lemma_join_lines_push(xs@.take(i as int).map_values(f), f(xs@[i as int]));
            assert(out@ =~= old(out)@ + join_lines(xs@.take(i as int + 1).map_values(f)));
        }
        i += 1;
    }
    proof {
        assert(xs@.take(xs@.len() as int) =~= xs@);
    }
}

/// Writes the canonical `ip ban` lines of IPv4 addresses.
#[verifier::spinoff_prover]
#[verifier::rlimit(100)]
#[verifier::loop_isolation(false)]
fn write_v4_ban_lines(out: &mut Vec<u8>, xs: &Vec<u32>)
    ensures
        final(out)@ == old(out)@ + join_lines(
            xs@.map_values(|a: u32| ip_ban_line(IpAddress::V4(a))),
        ),
{
    let ghost f = |a: u32| ip_ban_line(IpAddress::V4(a));
    let mut i: usize = 0;
    proof {
        assert(xs@.take(0).map_values(f) =~= Seq::<Seq<u8>>::empty());
        assert(out@ =~= old(out)@ + join_lines(xs@.take(0).map_values(f)));
    }
    while i < xs.len()
        invariant
            0 <= i <= xs@.len(),
            out@ == old(out)@ + join_lines(xs@.take(i as int).map_values(f)),
        decreases xs@.len() - i,
    {
        write_kw(out, "ip");
        write_kw(out, "ban");
        crate::ip::append_ipv4(out, xs[i]);
        out.push(10);
        proof {
            assert(xs@.take(i as int + 1).map_values(f) =~~= xs@.take(i as int).map_values(
                f,
            ).push(f(xs@[i as int])));
            lemma_join_lines_push(xs@.take(i as int).map_values(f), f(xs@[i as int]));
            assert(out@ =~= old(out)@ + join_lines(xs@.take(i as int + 1).map_values(f)));
        }
        i += 1;
    }
    proof {
        assert(xs@.take(xs@.len() as int) =~= xs@);
    }
}

/// Writes the canonical `ip ban` lines of IPv6 addresses.
#[verifier::spinoff_prover]
#[verifier::rlimit(100)]
#[verifier::loop_isolation(false)]
fn write_v6_ban_lines(out: &mut Vec<u8>, xs: &Vec<u128>)
    ensures
        final(out)@ == old(out)@ + join_lines(
            xs@.map_values(|a: u128| ip_ban_line(IpAddress::V6(a))),
        ),
{
    let ghost f = |a: u128| ip_ban_line(IpAddress::V6(a));
    let mut i: usize = 0;
    proof {
        assert(xs@.take(0).map_values(f) =~= Seq::<Seq<u8>>::empty());
        assert(out@ =~= old(out)@ + join_lines(xs@.take(0).map_values(f)));
    }
    while i < xs.len()
        invariant
            0 <= i <= xs@.len(),
            out@ == old(out)@ + join_lines(xs@.take(i as int).map_values(f)),
        decreases xs@.len() - i,
    {
        write_kw(out, "ip");
        write_kw(out, "ban");
        crate::ip::append_ipv6(out, xs[i]);
        out.push(10);
        proof {
            assert(xs@.take(i as int + 1).map_values(f) =~~= xs@.take(i as int).map_values(
                f,
            ).push(f(xs@[i as int])));
            lemma_join_lines_push(xs@.take(i as int).map_values(f), f(xs@[i as int]));
            assert(out@ =~= old(out)@ + join_lines(xs@.take(i as int + 1).map_values(f)));
        }
        i += 1;
    }
    proof {
        assert(xs@.take(xs@.len() as int) =~= xs@);
    }
}

/// Writes the canonical `ip ban-range` lines of IPv4 ranges.
#[verifier::spinoff_prover]
#[verifier::rlimit(100)]
#[verifier::loop_isolation(false)]
fn write_v4_range_lines(out: &mut Vec<u8>, xs: &Vec<(u32, u32)>)
    ensures
        final(out)@ == old(out)@ + join_lines(
            xs@.map_values(|r: (u32, u32)| ip_range_line(IpAddress::V4(r.0), IpAddress::V4(r.1))),
        ),
{
    let ghost f = |r: (u32, u32)| ip_range_line(IpAddress::V4(r.0), IpAddress::V4(r.1));
    let mut i: usize = 0;
    proof {
        assert(xs@.take(0).map_values(f) =~= Seq::<Seq<u8>>::empty());
        assert(out@ =~= old(out)@ + join_lines(xs@.take(0).map_values(f)));
    }
    while i < xs.len()
        invariant
            0 <= i <= xs@.len(),
            out@ == old(out)@ + join_lines(xs@.take(i as int).map_values(f)),
        decreases xs@.len() - i,
    {
        write_kw(out, "ip");
        write_kw(out, "ban-range");
        crate::ip::append_ipv4(out, xs[i].0);
        out.push(32);
        crate::ip::append_ipv4(out, xs[i].1);
        out.push(10);
        proof {
            assert(xs@.take(i as int + 1).map_values(f) =~~= xs@.take(i as int).map_values(
                f,
            ).push(f(xs@[i as int])));
            lemma_join_lines_push(xs@.take(i as int).map_values(f), f(xs@[i as int]));
            assert(out@ =~= old(out)@ + join_lines(xs@.take(i as int + 1).map_values(f)));
        }
        i += 1;
    }
    proof {
        assert(xs@.take(xs@.len() as int) =~= xs@);
    }
}

/// Writes the canonical `ip ban-range` lines of IPv6 ranges.
#[verifier::spinoff_prover]
#[verifier::rlimit(100)]
#[verifier::loop_isolation(false)]
fn write_v6_range_lines(out: &mut Vec<u8>, xs: &Vec<(u128, u128)>)
    ensures
        final(out)@ == old(out)@ + join_lines(
            xs@.map_values(
                |r: (u128, u128)| ip_range_line(IpAddress::V6(r.0), IpAddress::V6(r.1)),
            ),
        ),
{
    let ghost f = |r: (u128, u128)| ip_range_line(IpAddress::V6(r.0), IpAddress::V6(r.1));
    let mut i: usize = 0;
    proof {
        assert(xs@.take(0).map_values(f) =~= Seq::<Seq<u8>>::empty());
        assert(out@ =~= old(out)@ + join_lines(xs@.take(0).map_values(f)));
    }
    while i < xs.len()
        invariant
            0 <= i <= xs@.len(),
            out@ == old(out)@ + join_lines(xs@.take(i as int).map_values(f)),
        decreases xs@.len() - i,
    {
        write_kw(out, "ip");
        write_kw(out, "ban-range");
        crate::ip::append_ipv6(out, xs[i].0);
        out.push(32);
        crate::ip::append_ipv6(out, xs[i].1);
        out.push(10);
        proof {
            assert(xs@.take(i as int + 1).map_values(f) =~~= xs@.take(i as int).map_values(
                f,
            ).push(f(xs@[i as int])));
            lemma_join_lines_push(xs@.take(i as int).map_values(f), f(xs@[i as int]));
            assert(out@ =~= old(out)@ + join_lines(xs@.take(i as int + 1).map_values(f)));
        }
        i += 1;
    }
    proof {
        assert(xs@.take(xs@.len() as int) =~= xs@);
    }
}

/// Writes lines of one string-carrying sub-command: the two keywords,
/// then each string, one line per entry.
#[verifier::spinoff_prover]
#[verifier::rlimit(100)]
#[verifier::loop_isolation(false)]
fn write_text_lines(out: &mut Vec<u8>, kw1: &str, kw2: &str, xs: &Vec<String>)
    ensures
        final(out)@ == old(out)@ + join_lines(
            xs@.map_values(
                |n: String| bytes_of(kw1) + seq![32u8] + (bytes_of(kw2) + seq![32u8]
                    + vstd::utf8::encode_utf8(n@)),
            ),
        ),
{
    let ghost f = |n: String| bytes_of(kw1) + seq![32u8] + (bytes_of(kw2) + seq![32u8]
        + vstd::utf8::encode_utf8(n@));
    let mut i: usize = 0;
    proof {
        assert(xs@.take(0).map_values(f) =~= Seq::<Seq<u8>>::empty());
        assert(out@ =~= old(out)@ + join_lines(xs@.take(0).map_values(f)));
    }
    while i < xs.len()
        invariant
            0 <= i <= xs@.len(),
            out@ == old(out)@ + join_lines(xs@.take(i as int).map_values(f)),
        decreases xs@.len() - i,
    {
        write_kw(out, kw1);
        write_kw(out, kw2);
        out.extend_from_slice(xs[i].as_str().as_bytes());
        out.push(10);
        proof {
            assert(xs@.take(i as int + 1).map_values(f) =~~= xs@.take(i as int).map_values(
                f,
            ).push(f(xs@[i as int])));
            lemma_join_lines_push(xs@.take(i as int).map_values(f), f(xs@[i as int]));
            assert(out@ =~= old(out)@ + join_lines(xs@.take(i as int + 1).map_values(f)));
        }
        i += 1;
    }
    proof {
        assert(xs@.take(xs@.len() as int) =~= xs@);
    }
}

/// Writes one bound line: the two keywords, then the number.
fn write_bound_line(out: &mut Vec<u8>, kw1: &str, kw2: &str, n: u16)
    ensures
        final(out)@ == old(out)@ + (bytes_of(kw1) + seq![32u8] + (bytes_of(kw2) + seq![32u8]
            + fmt_dec(n as int))) + seq![10u8],
{
    write_kw(out, kw1);
    write_kw(out, kw2);
    append_dec(out, n);
    out.push(10);
    proof {
        assert(out@ =~= old(out)@ + (bytes_of(kw1) + seq![32u8] + (bytes_of(kw2) + seq![32u8]
            + fmt_dec(n as int))) + seq![10u8]);
    }
}


impl Config {
    /// Writes the canonical form of this configuration: every directive
    /// it holds, one per line. Parsing this text back from a default
    /// configuration yields this configuration again.
    #[verifier::spinoff_prover]
    #[verifier::rlimit(100)]
    pub fn canonical_text(&self) -> (r: Vec<u8>)
        ensures
            r@ == join_lines(canonical_lines(self@)),
    {
        let v = self;
        let mut out: Vec<u8> = Vec::new();
        write_listen_lines(&mut out, &v.listen_sock_addrs);
        let ghost j1 = out@;
        write_v4_allow_lines(&mut out, v.ip_filtering.v4_allowed_list());
        let ghost j2 = out@;
        write_v6_allow_lines(&mut out, v.ip_filtering.v6_allowed_list());
        let ghost j3 = out@;
        write_v4_ban_lines(&mut out, v.ip_filtering.v4_banned_list());
        let ghost j4 = out@;
        write_v6_ban_lines(&mut out, v.ip_filtering.v6_banned_list());
        let ghost j5 = out@;
        write_v4_range_lines(&mut out, v.ip_filtering.v4_banned_range_list());
        let ghost j6 = out@;
        write_v6_range_lines(&mut out, v.ip_filtering.v6_banned_range_list());
        let ghost j7 = out@;
        write_bound_line(&mut out, "nickname", "min-length", v.nickname_filtering.get_min_len()
            as u16);
        write_bound_line(&mut out, "nickname", "max-length", v.nickname_filtering.get_max_len()
            as u16);
        write_bound_line(&mut out, "message", "min-length", v.message_filtering.get_min_len());
        write_bound_line(&mut out, "message", "max-length", v.message_filtering.get_max_len());
        let ghost j8 = out@;
        let nick_allowed = v.nickname_filtering.get_allowed_nicknames();
        let nick_banned = v.nickname_filtering.get_banned_patterns();
        let msg_banned = v.message_filtering.get_banned_patterns();
        write_text_lines(&mut out, "nickname", "allow", nick_allowed);
        let ghost j9 = out@;
        write_text_lines(&mut out, "nickname", "ban", nick_banned);
        let ghost j10 = out@;
        write_text_lines(&mut out, "message", "ban", msg_banned);
        proof {
            lemma_canonical_text_assembled(
                v@,
                out@,
                j1,
                j2,
                j3,
                j4,
                j5,
                j6,
                j7,
                j8,
                j9,
                j10,
                nick_allowed@,
                nick_banned@,
                msg_banned@,
            );
        }
        out
    }
}

/// The assembled canonical text is the joined canonical lines.
#[verifier::spinoff_prover]
#[verifier::rlimit(100)]
proof fn lemma_canonical_text_assembled(
    v: ConfigView,
    whole: Seq<u8>,
    j1: Seq<u8>,
    j2: Seq<u8>,
    j3: Seq<u8>,
    j4: Seq<u8>,
    j5: Seq<u8>,
    j6: Seq<u8>,
    j7: Seq<u8>,
    j8: Seq<u8>,
    j9: Seq<u8>,
    j10: Seq<u8>,
    nick_allowed: Seq<String>,
    nick_banned: Seq<String>,
    msg_banned: Seq<String>,
)
    requires
        nick_allowed.map_values(|s: String| s@) == v.nickname.allowed,
        nick_banned.map_values(|s: String| s@) == v.nickname.banned,
        msg_banned.map_values(|s: String| s@) == v.message.banned,
        j1 == join_lines(v.listen.map_values(|sa: SocketAddress| listen_line(sa))),
        j2 == j1 + join_lines(v.ip.v4_allowed.map_values(|a: u32| ip_allow_line(IpAddress::V4(a)))),
        j3 == j2 + join_lines(
            v.ip.v6_allowed.map_values(|a: u128| ip_allow_line(IpAddress::V6(a))),
        ),
        j4 == j3 + join_lines(v.ip.v4_banned.map_values(|a: u32| ip_ban_line(IpAddress::V4(a)))),
        j5 == j4 + join_lines(v.ip.v6_banned.map_values(|a: u128| ip_ban_line(IpAddress::V6(a)))),
        j6 == j5 + join_lines(
            v.ip.v4_banned_ranges.map_values(
                |r: (u32, u32)| ip_range_line(IpAddress::V4(r.0), IpAddress::V4(r.1)),
            ),
        ),
        j7 == j6 + join_lines(
            v.ip.v6_banned_ranges.map_values(
                |r: (u128, u128)| ip_range_line(IpAddress::V6(r.0), IpAddress::V6(r.1)),
            ),
        ),
        j8 == j7 + nick_min_line(v.nickname.min_len) + seq![10u8] + nick_max_line(
            v.nickname.max_len,
        ) + seq![10u8] + msg_min_line(v.message.min_len) + seq![10u8] + msg_max_line(
            v.message.max_len,
        ) + seq![10u8],
        j9 == j8 + join_lines(
            nick_allowed.map_values(
                |n: String| bytes_of("nickname") + seq![32u8] + (bytes_of("allow") + seq![32u8]
                    + vstd::utf8::encode_utf8(n@)),
            ),
        ),
        j10 == j9 + join_lines(
            nick_banned.map_values(
                |n: String| bytes_of("nickname") + seq![32u8] + (bytes_of("ban") + seq![32u8]
                    + vstd::utf8::encode_utf8(n@)),
            ),
        ),
        whole == j10 + join_lines(
            msg_banned.map_values(
                |n: String| bytes_of("message") + seq![32u8] + (bytes_of("ban") + seq![32u8]
                    + vstd::utf8::encode_utf8(n@)),
            ),
        ),
    ensures
        whole == join_lines(canonical_lines(v)),
{
    let s1 = v.listen.map_values(|sa: SocketAddress| listen_line(sa));
    let s2 = v.ip.v4_allowed.map_values(|a: u32| ip_allow_line(IpAddress::V4(a)));
    let s3 = v.ip.v6_allowed.map_values(|a: u128| ip_allow_line(IpAddress::V6(a)));
    let s4 = v.ip.v4_banned.map_values(|a: u32| ip_ban_line(IpAddress::V4(a)));
    let s5 = v.ip.v6_banned.map_values(|a: u128| ip_ban_line(IpAddress::V6(a)));
    let s6 = v.ip.v4_banned_ranges.map_values(
        |r: (u32, u32)| ip_range_line(IpAddress::V4(r.0), IpAddress::V4(r.1)),
    );
    let s7 = v.ip.v6_banned_ranges.map_values(
        |r: (u128, u128)| ip_range_line(IpAddress::V6(r.0), IpAddress::V6(r.1)),
    );
    let s8 = seq![
        nick_min_line(v.nickname.min_len),
        nick_max_line(v.nickname.max_len),
        msg_min_line(v.message.min_len),
        msg_max_line(v.message.max_len),
    ];
    let s9 = v.nickname.allowed.map_values(|n: Seq<char>| nick_allow_line(n));
    let s10 = v.nickname.banned.map_values(|n: Seq<char>| nick_ban_line(n));
    let s11 = v.message.banned.map_values(|n: Seq<char>| msg_ban_line(n));
    lemma_string_lines_views(nick_allowed, nick_banned, msg_banned, v);
    lemma_attach_four(
        j7,
        nick_min_line(v.nickname.min_len),
        nick_max_line(v.nickname.max_len),
        msg_min_line(v.message.min_len),
        msg_max_line(v.message.max_len),
    );
    lemma_join_lines_concat(s1, s2);
    lemma_join_lines_concat(s1 + s2, s3);
    lemma_join_lines_concat(s1 + s2 + s3, s4);
    lemma_join_lines_concat(s1 + s2 + s3 + s4, s5);
    lemma_join_lines_concat(s1 + s2 + s3 + s4 + s5, s6);
    lemma_join_lines_concat(s1 + s2 + s3 + s4 + s5 + s6, s7);
    lemma_join_lines_concat(s1 + s2 + s3 + s4 + s5 + s6 + s7, s8);
    lemma_join_lines_concat(s1 + s2 + s3 + s4 + s5 + s6 + s7 + s8, s9);
    lemma_join_lines_concat(s1 + s2 + s3 + s4 + s5 + s6 + s7 + s8 + s9, s10);
    lemma_join_lines_concat(s1 + s2 + s3 + s4 + s5 + s6 + s7 + s8 + s9 + s10, s11);
    assert(canonical_lines(v) == s1 + s2 + s3 + s4 + s5 + s6 + s7 + s8 + s9 + s10 + s11);
    assert(whole =~= join_lines(canonical_lines(v)));
}


/// The string-carrying canonical lines, expressed over views.
proof fn lemma_string_lines_views(
    nick_allowed: Seq<String>,
    nick_banned: Seq<String>,
    msg_banned: Seq<String>,
    v: ConfigView,
)
    requires
        nick_allowed.map_values(|s: String| s@) == v.nickname.allowed,
        nick_banned.map_values(|s: String| s@) == v.nickname.banned,
        msg_banned.map_values(|s: String| s@) == v.message.banned,
    ensures
        nick_allowed.map_values(
            |n: String| bytes_of("nickname") + seq![32u8] + (bytes_of("allow") + seq![32u8]
                + vstd::utf8::encode_utf8(n@)),
        ) == v.nickname.allowed.map_values(|n: Seq<char>| nick_allow_line(n)),
        nick_banned.map_values(
            |n: String| bytes_of("nickname") + seq![32u8] + (bytes_of("ban") + seq![32u8]
                + vstd::utf8::encode_utf8(n@)),
        ) == v.nickname.banned.map_values(|n: Seq<char>| nick_ban_line(n)),
        msg_banned.map_values(
            |n: String| bytes_of("message") + seq![32u8] + (bytes_of("ban") + seq![32u8]
                + vstd::utf8::encode_utf8(n@)),
        ) == v.message.banned.map_values(|n: Seq<char>| msg_ban_line(n)),
{
    assert(nick_allowed.map_values(
        |n: String| bytes_of("nickname") + seq![32u8] + (bytes_of("allow") + seq![32u8]
            + vstd::utf8::encode_utf8(n@)),
    ) =~~= v.nickname.allowed.map_values(|n: Seq<char>| nick_allow_line(n)));
    assert(nick_banned.map_values(
        |n: String| bytes_of("nickname") + seq![32u8] + (bytes_of("ban") + seq![32u8]
            + vstd::utf8::encode_utf8(n@)),
    ) =~~= v.nickname.banned.map_values(|n: Seq<char>| nick_ban_line(n)));
    assert(msg_banned.map_values(
        |n: String| bytes_of("message") + seq![32u8] + (bytes_of("ban") + seq![32u8]
            + vstd::utf8::encode_utf8(n@)),
    ) =~~= v.message.banned.map_values(|n: Seq<char>| msg_ban_line(n)));
}

/// Four written bound lines attach to a prefix as their joined text.
proof fn lemma_attach_four(j7: Seq<u8>, l1: Seq<u8>, l2: Seq<u8>, l3: Seq<u8>, l4: Seq<u8>)
    ensures
        j7 + l1 + seq![10u8] + l2 + seq![10u8] + l3 + seq![10u8] + l4 + seq![10u8] == j7
            + join_lines(seq![l1, l2, l3, l4]),
{
    lemma_join_four(l1, l2, l3, l4);
    assert(j7 + l1 + seq![10u8] + l2 + seq![10u8] + l3 + seq![10u8] + l4 + seq![10u8] =~= j7
        + join_lines(seq![l1, l2, l3, l4]));
}

/// The joined text of four lines, written out.
proof fn lemma_join_four(l1: Seq<u8>, l2: Seq<u8>, l3: Seq<u8>, l4: Seq<u8>)
    ensures
        join_lines(seq![l1, l2, l3, l4]) == l1 + seq![10u8] + l2 + seq![10u8] + l3 + seq![10u8]
            + l4 + seq![10u8],
{
    assert(seq![l1, l2, l3, l4].drop_first() =~= seq![l2, l3, l4]);
    assert(seq![l2, l3, l4].drop_first() =~= seq![l3, l4]);
    assert(seq![l3, l4].drop_first() =~= seq![l4]);
    assert(seq![l4].drop_first() =~= Seq::<Seq<u8>>::empty());
    assert(join_lines(Seq::<Seq<u8>>::empty()) == Seq::<u8>::empty());
    assert(join_lines(seq![l4]) == l4 + seq![10u8] + Seq::<u8>::empty());
    assert(join_lines(seq![l3, l4]) == l3 + seq![10u8] + join_lines(seq![l4]));
    assert(join_lines(seq![l2, l3, l4]) == l2 + seq![10u8] + join_lines(seq![l3, l4]));
    assert(join_lines(seq![l1, l2, l3, l4]) == l1 + seq![10u8] + join_lines(seq![l2, l3, l4]));
    assert(join_lines(seq![l1, l2, l3, l4]) =~= l1 + seq![10u8] + l2 + seq![10u8] + l3 + seq![10u8]
        + l4 + seq![10u8]);
}

} // verus!
