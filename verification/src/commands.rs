//! The command layer: extracting the tokens of a request frame,
//! dispatching the four commands (`ping`, `echo`, `set`, `get`) against
//! the cache, and encoding the reply.
//!
//! Replies come in two shapes.  A simple reply is `+<text>\r\n`; a bulk
//! reply is `$<byte length>\r\n<payload>\r\n`, where the length counts
//! the UTF-8 bytes of the payload.

use vstd::prelude::*;

use crate::cache::{self, Cache, EntryInfo};
use crate::utils;
use vstd::utf8::encode_utf8;

verus! {

/// The digit character for the value `d`.
pub open spec fn dec_digit_char(d: int) -> char {
    if d == 0 {
        '0'
    } else if d == 1 {
        '1'
    } else if d == 2 {
        '2'
    } else if d == 3 {
        '3'
    } else if d == 4 {
        '4'
    } else if d == 5 {
        '5'
    } else if d == 6 {
        '6'
    } else if d == 7 {
        '7'
    } else if d == 8 {
        '8'
    } else {
        '9'
    }
}

/// The decimal digits of `n`, most significant first, with no sign and
/// no leading zero (except for `n == 0` itself).
pub open spec fn dec_digits(n: int) -> Seq<char>
    recommends
        n >= 0,
    decreases n,
{
    if n < 10 {
        seq![dec_digit_char(n)]
    } else {
        dec_digits(n / 10).push(dec_digit_char(n % 10))
    }
}

/// The wire form of a simple reply: `+<m>\r\n`.
pub open spec fn spec_simple(m: Seq<char>) -> Seq<char> {
    seq!['+'] + m + seq!['\r', '\n']
}

/// The UTF-8 byte length of `m`, as the machine reports it: a byte
/// count always fits in `usize`, which the cast records.
pub open spec fn byte_len_of(m: Seq<char>) -> int {
    (encode_utf8(m).len() as usize) as int
}

/// The wire form of a bulk reply: `$<byte length of m>\r\n<m>\r\n`.
pub open spec fn spec_bulk(m: Seq<char>) -> Seq<char> {
    seq!['$'] + dec_digits(byte_len_of(m)) + seq!['\r', '\n'] + m + seq!['\r', '\n']
}

/// The single digit `d` as a string.
fn digit_string(d: u64) -> (r: String)
    requires
        d < 10,
    ensures
        r@ == seq![dec_digit_char(d as int)],
{
    let ds = "0123456789";
    proof {
        reveal_strlit("0123456789");
    }
    let sub = ds.substring_char(d as usize, d as usize + 1);
    assert(sub@ =~= seq![dec_digit_char(d as int)]);
    String::from_str(sub)
}

/// `n` written in decimal.
fn dec_u64(n: u64) -> (r: String)
    ensures
        r@ == dec_digits(n as int),
    decreases n,
{
    if n < 10 {
        digit_string(n)
    } else {
        let mut s = dec_u64(n / 10);
        let d = digit_string(n % 10);
        s.append(d.as_str());
        assert(s@ =~= dec_digits(n as int));
        s
    }
}

/// `c` is one of the whitespace characters that token trimming
/// removes: the Unicode White_Space set, the one `str::trim` strips.
pub open spec fn is_space(c: char) -> bool {
    let u = c as int;
    (9 <= u <= 13) || u == 32 || u == 0x85 || u == 0xA0 || u == 0x1680 || (0x2000 <= u
        <= 0x200A) || u == 0x2028 || u == 0x2029 || u == 0x202F || u == 0x205F || u == 0x3000
}

/// The position of the first `'\n'` at or after `pos`, or the length of
/// `s` if there is none.
pub open spec fn next_nl(s: Seq<char>, pos: int) -> int
    decreases s.len() - pos,
{
    if pos < 0 || pos >= s.len() {
        s.len() as int
    } else if s[pos] == '\n' {
        pos
    } else {
        next_nl(s, pos + 1)
    }
}

proof fn lemma_next_nl_bounds(s: Seq<char>, pos: int)
    requires
        0 <= pos <= s.len(),
    ensures
        pos <= next_nl(s, pos) <= s.len(),
    decreases s.len() - pos,
{
    if pos < s.len() && s[pos] != '\n' {
        lemma_next_nl_bounds(s, pos + 1);
    }
}

/// The first position in `[a, end)` that does not hold whitespace, or
/// `a` itself when the range is empty, or `end` when all of it is
/// whitespace.
pub open spec fn skip_space_fwd(s: Seq<char>, a: int, end: int) -> int
    decreases end - a,
{
    if 0 <= a < end <= s.len() && is_space(s[a]) {
        skip_space_fwd(s, a + 1, end)
    } else {
        a
    }
}

/// The position after the last character in `[a, b)` that does not hold
/// whitespace, or `a` when all of the range is whitespace.
pub open spec fn skip_space_back(s: Seq<char>, a: int, b: int) -> int
    decreases b,
{
    if 0 <= a < b <= s.len() && is_space(s[b - 1]) {
        skip_space_back(s, a, b - 1)
    } else {
        b
    }
}

proof fn lemma_skip_space_bounds(s: Seq<char>, a: int, end: int)
    requires
        0 <= a <= end <= s.len(),
    ensures
        a <= skip_space_fwd(s, a, end) <= end,
        ({
            let f = skip_space_fwd(s, a, end);
            f <= skip_space_back(s, f, end) <= end
        }),
    decreases end - a,
{
    if a < end && is_space(s[a]) {
        lemma_skip_space_bounds(s, a + 1, end);
    } else {
        lemma_skip_back_bounds(s, a, end);
    }
}

proof fn lemma_skip_back_bounds(s: Seq<char>, a: int, b: int)
    requires
        0 <= a <= b <= s.len(),
    ensures
        a <= skip_space_back(s, a, b) <= b,
    decreases b,
{
    if a < b && is_space(s[b - 1]) {
        lemma_skip_back_bounds(s, a, b - 1);
    }
}

/// Some position in `[from, to)` holds a `'$'`.
pub open spec fn has_dollar_range(s: Seq<char>, from: int, to: int) -> bool {
    exists|i: int| from <= i < to && s[i] == '$'
}

/// The characters of `[from, to)` with surrounding whitespace removed.
pub open spec fn trimmed(s: Seq<char>, from: int, to: int) -> Seq<char> {
    let a = skip_space_fwd(s, from, to);
    let b = skip_space_back(s, a, to);
    s.subrange(a, b)
}

/// The tokens of the lines of `s` that start at `pos`: per line, a line
/// holding a `'$'` (a length-prefix marker) is dropped, any other
/// yields its trimmed content.  A line ends at a `'\n'`, and loses one
/// `'\r'` standing right before that `'\n'`; the final line needs no
/// line ending.
pub open spec fn tokens_from(s: Seq<char>, pos: int) -> Seq<Seq<char>>
    decreases s.len() - pos,
        via tokens_from_dec
{
    if pos < 0 || pos >= s.len() {
        Seq::empty()
    } else {
        let j = next_nl(s, pos);
        let end = if j < s.len() && j > pos && s[j - 1] == '\r' {
            j - 1
        } else {
            j
        };
        let kept = if has_dollar_range(s, pos, end) {
            Seq::<Seq<char>>::empty()
        } else {
            seq![trimmed(s, pos, end)]
        };
        let next = if j < s.len() {
            j + 1
        } else {
            j
        };
        kept + tokens_from(s, next)
    }
}

#[via_fn]
proof fn tokens_from_dec(s: Seq<char>, pos: int) {
    if 0 <= pos < s.len() {
        lemma_next_nl_bounds(s, pos);
    }
}

/// The tokens of the frame `s`: its first line (the frame-size marker)
/// is dropped, the remaining lines yield tokens as [`tokens_from`]
/// says.
pub open spec fn spec_extract(s: Seq<char>) -> Seq<Seq<char>> {
    tokens_from(s, next_nl(s, 0) + 1)
}

fn is_space_char(c: char) -> (r: bool)
    ensures
        r == is_space(c),
{
    let u = c as u32;
    (9 <= u && u <= 13) || u == 32 || u == 0x85 || u == 0xA0 || u == 0x1680 || (0x2000 <= u
        && u <= 0x200A) || u == 0x2028 || u == 0x2029 || u == 0x202F || u == 0x205F || u
        == 0x3000
}

/// The reply to a request whose command name is none of the four known
/// ones.
pub open spec fn unknown_reply() -> Seq<char> {
    "-ERR unknown command\r\n"@
}

/// The tokens of a request are well-formed: there is a command name,
/// and the commands that take arguments have them.  A request whose
/// tokens fail this cannot be serviced.
pub open spec fn wf_tokens(t: Seq<Seq<char>>) -> bool {
    &&& t.len() > 0
    &&& t[0] == "echo"@ ==> t.len() >= 2
    &&& t[0] == "set"@ ==> t.len() >= 3
    &&& t[0] == "get"@ ==> t.len() >= 2
}

/// The time-to-live, in whole seconds, that a `set` stores: the given
/// one when present, the default `d` otherwise.
pub open spec fn ttl_secs_of(ttl: Option<u64>, d: u64) -> u64 {
    match ttl {
        Some(secs) => secs,
        None => d,
    }
}

/// The time-to-live, in whole seconds, that a `set` request with
/// tokens `t` stores: the parsed seconds of an `EX` clause when one is
/// present and numeric, the default `d` otherwise.
pub open spec fn spec_ttl_arg(t: Seq<Seq<char>>, d: u64) -> int {
    if t.len() >= 5 && t[3] == "EX"@ && utils::spec_parse_secs(t[4]) is Some {
        utils::spec_parse_secs(t[4])->0 as int
    } else {
        d as int
    }
}

/// Default time-to-live fallback: a `set` request with no `EX` clause
/// stores its entry under the processor's configured default.
pub proof fn lemma_default_ttl(t: Seq<Seq<char>>, d: u64)
    requires
        t.len() < 5 || t[3] != "EX"@,
    ensures
        spec_ttl_arg(t, d) == d as int,
{
}

/// The tokens are equal as strings.
fn token_is(t: &String, lit: &str) -> (r: bool)
    ensures
        r == (t@ == lit@),
{
    let l = String::from_str(lit);
    *t == l
}

fn find_dollar(s: &str, from: usize, to: usize) -> (r: bool)
    requires
        from <= to <= s@.len(),
    ensures
        r == has_dollar_range(s@, from as int, to as int),
{
    let mut i = from;
    while i < to
        invariant
            from <= i <= to <= s@.len(),
            forall|k: int| from <= k < i ==> s@[k] != '$',
        decreases to - i,
    {
        if s.get_char(i) == '$' {
            return true;
        }
        i = i + 1;
    }
    false
}

/// The command processor: one cache and the default time-to-live, in
/// whole seconds, given to entries that a `set` stores without a
/// time-to-live of its own.
pub struct Commands {
    cache: Cache,
    default_ttl: u64,
}

impl View for Commands {
    type V = Map<Seq<char>, EntryInfo>;

    /// The model of a processor is the model of its cache.
    closed spec fn view(&self) -> Map<Seq<char>, EntryInfo> {
        self.cache@
    }
}

impl Commands {
    pub closed spec fn wf(&self) -> bool {
        self.cache.wf()
    }

    /// The default time-to-live, in whole seconds.
    pub closed spec fn default_ttl_secs(&self) -> u64 {
        self.default_ttl
    }

    /// A processor over a fresh, empty cache, with a default
    /// time-to-live of `ttl` whole seconds.
    pub fn new(ttl: u64) -> (r: Commands)
        ensures
            r.wf(),
            r@ == Map::<Seq<char>, EntryInfo>::empty(),
            r.default_ttl_secs() == ttl,
    {
        Commands { cache: Cache::new(), default_ttl: ttl }
    }

    /// Splits a request frame into its tokens: the first line is
    /// dropped, every remaining line that holds a `'$'` is dropped,
    /// every other line yields its trimmed content, in order.
    pub fn extract_commands(&self, command: &str) -> (r: Vec<String>)
        ensures
            r.deep_view() == spec_extract(command@),
    {
        let n = command.unicode_len();
        let mut result: Vec<String> = Vec::new();
        // Skip the frame-size line.
        let mut pos: usize = 0;
        while pos < n && command.get_char(pos) != '\n'
            invariant
                0 <= pos <= n,
                n == command@.len(),
                next_nl(command@, 0) == next_nl(command@, pos as int),
            decreases n - pos,
        {
            pos = pos + 1;
        }
        assert(next_nl(command@, 0) == pos as int);
        if pos >= n {
            assert(tokens_from(command@, pos as int + 1) =~= Seq::<Seq<char>>::empty());
            assert(result.deep_view() =~= spec_extract(command@));
            return result;
        }
        pos = pos + 1;
        while pos < n
            invariant
                0 <= pos <= n,
                n == command@.len(),
                result.deep_view() + tokens_from(command@, pos as int) == spec_extract(
                    command@,
                ),
            decreases n - pos,
        {
            let ghost s = command@;
            let ghost dv0 = result.deep_view();
            // Find the end of the current line.
            let mut j = pos;
            while j < n && command.get_char(j) != '\n'
                invariant
                    pos <= j <= n,
                    n == command@.len(),
                    next_nl(command@, pos as int) == next_nl(command@, j as int),
                decreases n - j,
            {
                j = j + 1;
            }
            assert(next_nl(s, pos as int) == j as int);
            // Lose a carriage return standing right before the newline.
            let end: usize = if j < n && j > pos && command.get_char(j - 1) == '\r' {
                j - 1
            } else {
                j
            };
            let dollar = find_dollar(command, pos, end);
            if !dollar {
                proof {
                    lemma_skip_space_bounds(s, pos as int, end as int);
                }
                // Trim the token.
                let mut a = pos;
                while a < end && is_space_char(command.get_char(a))
                    invariant
                        pos <= a <= end <= n,
                        n == command@.len(),
                        skip_space_fwd(command@, pos as int, end as int) == skip_space_fwd(
                            command@,
                            a as int,
                            end as int,
                        ),
                    decreases end - a,
                {
                    a = a + 1;
                }
                assert(skip_space_fwd(s, pos as int, end as int) == a as int);
                let mut b = end;
                while b > a && is_space_char(command.get_char(b - 1))
                    invariant
                        a <= b <= end <= n,
                        n == command@.len(),
                        skip_space_back(command@, a as int, end as int) == skip_space_back(
                            command@,
                            a as int,
                            b as int,
                        ),
                    decreases b,
                {
                    b = b - 1;
                }
                assert(skip_space_back(s, a as int, end as int) == b as int);
                let token = String::from_str(command.substring_char(a, b));
                assert(token@ == trimmed(s, pos as int, end as int));
                result.push(token);
                assert(result.deep_view() =~= dv0.push(trimmed(s, pos as int, end as int)));
            }
            let ghost kept = if has_dollar_range(s, pos as int, end as int) {
                Seq::<Seq<char>>::empty()
            } else {
                seq![trimmed(s, pos as int, end as int)]
            };
            let ghost next = if (j as int) < s.len() {
                j as int + 1
            } else {
                j as int
            };
            assert(tokens_from(s, pos as int) == kept + tokens_from(s, next));
            assert(result.deep_view() =~= dv0 + kept);
            assert(result.deep_view() + tokens_from(s, next) =~= dv0 + tokens_from(
                s,
                pos as int,
            ));
            if j < n {
                pos = j + 1;
            } else {
                pos = n;
            }
        }
        assert(tokens_from(command@, pos as int) =~= Seq::<Seq<char>>::empty());
        assert(result.deep_view() =~= spec_extract(command@));
        result
    }

    /// Encodes `message` as a simple reply: `+<message>\r\n`.
    pub fn simple_command(&self, message: &str) -> (r: String)
        ensures
            r@ == spec_simple(message@),
    {
        let mut s = String::from_str("+");
        s.append(message);
        s.append("\r\n");
        proof {
            reveal_strlit("+");
            reveal_strlit("\r\n");
            assert(s@ =~= spec_simple(message@));
        }
        s
    }

    /// Encodes `message` as a bulk reply:
    /// `$<byte length>\r\n<message>\r\n`.
    pub fn bulk_command(&self, message: &str) -> (r: String)
        ensures
            r@ == spec_bulk(message@),
    {
        let len = message.len();
        let mut s = String::from_str("$");
        let digits = dec_u64(len as u64);
        s.append(digits.as_str());
        s.append("\r\n");
        s.append(message);
        s.append("\r\n");
        proof {
            reveal_strlit("$");
            reveal_strlit("\r\n");
            assert(s@ =~= spec_bulk(message@));
        }
        s
    }

    /// Serves a `get`: a simple reply holding the stored value while
    /// the entry for `key` is live, and `+Not found.\r\n` otherwise.
    /// The lookup runs at the current time, so the state afterwards is
    /// the cleaned cache at some time bound existentially.
    pub fn get(&mut self, key: String) -> (r: String)
        requires
            old(self).wf(),
        ensures
            final(self).wf(),
            final(self).default_ttl_secs() == old(self).default_ttl_secs(),
            exists|t: int| 0 <= t && final(self)@ == cache::spec_cleanup(old(self)@, t),
            final(self)@.contains_key(key@) ==> r@ == spec_simple(final(self)@[key@].value)
                && final(self)@[key@] == old(self)@[key@],
            !final(self)@.contains_key(key@) ==> r@ == spec_simple("Not found."@),
    {
        let got = self.cache.get(&key);
        proof {
            let tm = choose|t: int|
                0 <= t && self.cache@ == cache::spec_cleanup(old(self).cache@, t) && (match got {
                    Some(v) => cache::spec_lookup(old(self).cache@, key@, t) == Some(v@),
                    None => cache::spec_lookup(old(self).cache@, key@, t) is None,
                });
            assert(0 <= tm && self@ == cache::spec_cleanup(old(self)@, tm));
        }
        match got {
            Some(value) => self.simple_command(value.as_str()),
            None => self.simple_command("Not found."),
        }
    }

    /// Serves a `set`: stores `value` under `key` with the given
    /// time-to-live in whole seconds, or the configured default when
    /// none is given, and replies `+Ok\r\n`.
    pub fn set(&mut self, key: String, value: String, ttl: Option<u64>) -> (r: String)
        requires
            old(self).wf(),
        ensures
            final(self).wf(),
            final(self).default_ttl_secs() == old(self).default_ttl_secs(),
            r@ == spec_simple("Ok"@),
            exists|t0: int|
                0 <= t0 && final(self)@ == cache::spec_set(
                    old(self)@,
                    key@,
                    value@,
                    t0,
                    ttl_secs_of(ttl, old(self).default_ttl_secs()) as int,
                ),
    {
        let secs = match ttl {
            Some(secs) => secs,
            None => self.default_ttl,
        };
        let ghost gkey = key@;
        let ghost gval = value@;
        self.cache.set(key, value, secs);
        proof {
            let t0 = choose|t0: int|
                0 <= t0 && self.cache@ == cache::spec_set(
                    old(self).cache@,
                    gkey,
                    gval,
                    t0,
                    secs as int,
                );
            assert(secs == ttl_secs_of(ttl, old(self).default_ttl_secs()));
            assert(0 <= t0 && self@ == cache::spec_set(
                old(self)@,
                gkey,
                gval,
                t0,
                ttl_secs_of(ttl, old(self).default_ttl_secs()) as int,
            ));
        }
        self.simple_command("Ok")
    }

    /// Dispatches one tokenised request and encodes its reply:
    /// `ping` always replies `+PONG\r\n`; `echo` replies its argument
    /// as a bulk reply; `set` stores and replies `+Ok\r\n`; `get` looks
    /// up; any other command name changes nothing and yields an error
    /// reply.
    pub fn exec_command(&mut self, commands: Vec<String>) -> (r: String)
        requires
            old(self).wf(),
            wf_tokens(commands.deep_view()),
        ensures
            final(self).wf(),
            final(self).default_ttl_secs() == old(self).default_ttl_secs(),
            ({
                let t = commands.deep_view();
                &&& t[0] == "ping"@ ==> r@ == spec_simple("PONG"@) && final(self)@ == old(
                    self,
                )@
                &&& t[0] == "echo"@ ==> r@ == spec_bulk(t[1]) && final(self)@ == old(self)@
                &&& t[0] == "set"@ ==> r@ == spec_simple("Ok"@) && exists|t0: int|
                    0 <= t0 && final(self)@ == cache::spec_set(
                        old(self)@,
                        t[1],
                        t[2],
                        t0,
                        spec_ttl_arg(t, old(self).default_ttl_secs()),
                    )
                &&& t[0] == "get"@ ==> {
                    &&& exists|tm: int|
                        0 <= tm && final(self)@ == cache::spec_cleanup(old(self)@, tm)
                    &&& final(self)@.contains_key(t[1]) ==> r@ == spec_simple(
                        final(self)@[t[1]].value,
                    ) && final(self)@[t[1]] == old(self)@[t[1]]
                    &&& !final(self)@.contains_key(t[1]) ==> r@ == spec_simple(
                        "Not found."@,
                    )
                }
                &&& t[0] != "ping"@ && t[0] != "echo"@ && t[0] != "set"@ && t[0] != "get"@
                    ==> r@ == unknown_reply() && final(self)@ == old(self)@
            }),
    {
        proof {
            // The four command names are pairwise distinct words, so
            // at most one case of the contract applies.
            reveal_strlit("ping");
            reveal_strlit("echo");
            reveal_strlit("set");
            reveal_strlit("get");
            assert("ping"@.len() == 4);
            assert("echo"@.len() == 4);
            assert("set"@.len() == 3);
            assert("get"@.len() == 3);
            assert("ping"@[0] == 'p' && "echo"@[0] == 'e');
            assert("set"@[0] == 's' && "get"@[0] == 'g');
            assert("ping"@ != "echo"@ && "ping"@ != "set"@ && "ping"@ != "get"@ && "echo"@
                != "set"@ && "echo"@ != "get"@ && "set"@ != "get"@);
        }
        let ghost t = commands.deep_view();
        assert(t[0] == commands@[0]@);
        if token_is(&commands[0], "ping") {
            self.simple_command("PONG")
        } else if token_is(&commands[0], "echo") {
            assert(t[1] == commands@[1]@);
            self.bulk_command(commands[1].as_str())
        } else if token_is(&commands[0], "set") {
            assert(t[1] == commands@[1]@);
            assert(t[2] == commands@[2]@);
            let key = commands[1].clone();
            let value = commands[2].clone();
            let ttl: Option<u64> = if commands.len() >= 5 {
                assert(t[3] == commands@[3]@);
                assert(t[4] == commands@[4]@);
                if token_is(&commands[3], "EX") {
                    utils::parse_to_duration(Some(commands[4].as_str()))
                } else {
                    None
                }
            } else {
                None
            };
            assert(match ttl {
                Some(secs) => secs as int == spec_ttl_arg(t, self.default_ttl_secs()),
                None => self.default_ttl_secs() as int == spec_ttl_arg(
                    t,
                    self.default_ttl_secs(),
                ),
            });
            self.set(key, value, ttl)
        } else if token_is(&commands[0], "get") {
            assert(t[1] == commands@[1]@);
            self.get(commands[1].clone())
        } else {
            String::from_str("-ERR unknown command\r\n")
        }
    }

    /// Serves one raw request frame: extracts its tokens and
    /// dispatches them as [`Self::exec_command`] says.
    pub fn handle_command(&mut self, buffer: &str) -> (r: String)
        requires
            old(self).wf(),
            wf_tokens(spec_extract(buffer@)),
        ensures
            final(self).wf(),
            final(self).default_ttl_secs() == old(self).default_ttl_secs(),
            ({
                let t = spec_extract(buffer@);
                &&& t[0] == "ping"@ ==> r@ == spec_simple("PONG"@) && final(self)@ == old(
                    self,
                )@
                &&& t[0] == "echo"@ ==> r@ == spec_bulk(t[1]) && final(self)@ == old(self)@
                &&& t[0] == "set"@ ==> r@ == spec_simple("Ok"@) && exists|t0: int|
                    0 <= t0 && final(self)@ == cache::spec_set(
                        old(self)@,
                        t[1],
                        t[2],
                        t0,
                        spec_ttl_arg(t, old(self).default_ttl_secs()),
                    )
                &&& t[0] == "get"@ ==> {
                    &&& exists|tm: int|
                        0 <= tm && final(self)@ == cache::spec_cleanup(old(self)@, tm)
                    &&& final(self)@.contains_key(t[1]) ==> r@ == spec_simple(
                        final(self)@[t[1]].value,
                    ) && final(self)@[t[1]] == old(self)@[t[1]]
                    &&& !final(self)@.contains_key(t[1]) ==> r@ == spec_simple(
                        "Not found."@,
                    )
                }
                &&& t[0] != "ping"@ && t[0] != "echo"@ && t[0] != "set"@ && t[0] != "get"@
                    ==> r@ == unknown_reply() && final(self)@ == old(self)@
            }),
    {
        let commands = self.extract_commands(buffer);
        self.exec_command(commands)
    }
}

} // verus!
