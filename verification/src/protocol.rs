//! The line-oriented command protocol: framing on carriage returns,
//! case normalization, tokenization, and classification of a command
//! line into a radar command, an unknown-command reply, or a silent
//! drop.

use vstd::prelude::*;

verus! {

use crate::numtext::parse_angle;
use crate::numtext::parse_angle_spec;
use crate::radar::RadarCommand;

/// ASCII whitespace, as the tokenizer sees it.
pub open spec fn is_ws(b: u8) -> bool {
    b == 32 || (9 <= b <= 13)
}

/// ASCII uppercasing of one byte.
pub open spec fn to_upper(b: u8) -> u8 {
    if 97 <= b <= 122 {
        (b - 32) as u8
    } else {
        b
    }
}

/// ASCII uppercasing of a whole line.
pub open spec fn upper_seq(s: Seq<u8>) -> Seq<u8> {
    s.map_values(|b: u8| to_upper(b))
}

/// The bytes with leading whitespace removed.
pub open spec fn skip_ws(s: Seq<u8>) -> Seq<u8>
    decreases s.len(),
{
    if s.len() > 0 && is_ws(s[0]) {
        skip_ws(s.drop_first())
    } else {
        s
    }
}

/// The maximal whitespace-free prefix.
pub open spec fn token_of(s: Seq<u8>) -> Seq<u8>
    decreases s.len(),
{
    if s.len() > 0 && !is_ws(s[0]) {
        seq![s[0]] + token_of(s.drop_first())
    } else {
        Seq::empty()
    }
}

/// The bytes after the maximal whitespace-free prefix.
pub open spec fn after_token(s: Seq<u8>) -> Seq<u8>
    decreases s.len(),
{
    if s.len() > 0 && !is_ws(s[0]) {
        after_token(s.drop_first())
    } else {
        s
    }
}

/// The first whitespace-separated token.
pub open spec fn first_token(s: Seq<u8>) -> Seq<u8> {
    token_of(skip_ws(s))
}

/// What remains after the first token.
pub open spec fn rest_tokens(s: Seq<u8>) -> Seq<u8> {
    after_token(skip_ws(s))
}

/// The AZIMUTH verb.
pub open spec fn azimuth_bytes() -> Seq<u8> {
    seq![65u8, 90, 73, 77, 85, 84, 72]
}

/// The ELEVATION verb.
pub open spec fn elevation_bytes() -> Seq<u8> {
    seq![69u8, 76, 69, 86, 65, 84, 73, 79, 78]
}

/// The REMOTE verb.
pub open spec fn remote_bytes() -> Seq<u8> {
    seq![82u8, 69, 77, 79, 84, 69]
}

/// The SERVOON verb.
pub open spec fn servoon_bytes() -> Seq<u8> {
    seq![83u8, 69, 82, 86, 79, 79, 78]
}

/// What the server does with one complete command line.
#[derive(Debug, PartialEq, Eq, Structural)]
pub enum LineOutcome {
    /// A recognized command, to be handed to the simulation loop.
    Dispatch(RadarCommand),
    /// No recognized verb: answer `Unknown command` and move on.
    Unknown,
    /// A recognized verb with a malformed numeric argument: drop the
    /// line silently, with no reply.
    Ignore,
}

/// Classification of a command line: the line is uppercased and split
/// on whitespace; a lone verb queries, a verb with a well-formed number
/// sets, a verb with a malformed number is dropped silently, and
/// everything else is unknown.
pub open spec fn classify_spec(line: Seq<u8>) -> LineOutcome {
    let u = upper_seq(line);
    let t1 = first_token(u);
    let r1 = rest_tokens(u);
    let t2 = first_token(r1);
    let r2 = rest_tokens(r1);
    let extra = first_token(r2);
    if t1 == azimuth_bytes() {
        if t2.len() == 0 {
            LineOutcome::Dispatch(RadarCommand::AzimuthQuery)
        } else if extra.len() == 0 {
            match parse_angle_spec(t2) {
                Some(v) => LineOutcome::Dispatch(RadarCommand::Azimuth(v as i64)),
                None => LineOutcome::Ignore,
            }
        } else {
            LineOutcome::Unknown
        }
    } else if t1 == elevation_bytes() {
        if t2.len() == 0 {
            LineOutcome::Dispatch(RadarCommand::ElevationQuery)
        } else if extra.len() == 0 {
            match parse_angle_spec(t2) {
                Some(v) => LineOutcome::Dispatch(RadarCommand::Elevation(v as i64)),
                None => LineOutcome::Ignore,
            }
        } else {
            LineOutcome::Unknown
        }
    } else if t1 == remote_bytes() && t2.len() == 0 {
        LineOutcome::Dispatch(RadarCommand::Remote)
    } else if t1 == servoon_bytes() && t2.len() == 0 {
        LineOutcome::Dispatch(RadarCommand::ServoOn)
    } else {
        LineOutcome::Unknown
    }
}

/// Runtime test matching `is_ws`.
fn ws_byte(b: u8) -> (r: bool)
    ensures
        r == is_ws(b),
{
    b == 32 || (9 <= b && b <= 13)
}

/// Uppercase a line into a fresh buffer.
fn to_upper_vec(line: &[u8]) -> (r: Vec<u8>)
    ensures
        r@ == upper_seq(line@),
{
    let mut out: Vec<u8> = Vec::new();
    let n = line.len();
    let mut i: usize = 0;
    while i < n
        invariant
            i <= n,
            n == line.len(),
            out@ == upper_seq(line@.take(i as int)),
        decreases n - i,
    {
        let b = line[i];
        let ub = if 97 <= b && b <= 122 {
            b - 32
        } else {
            b
        };
        out.push(ub);
        proof {
            assert(upper_seq(line@.take(i + 1)) =~= upper_seq(line@.take(i as int)).push(
                to_upper(line@[i as int]),
            ));
        }
        i = i + 1;
    }
    proof {
        assert(line@.take(n as int) =~= line@);
    }
    out
}

/// Advance an index past whitespace.
fn skip_ws_idx(v: &Vec<u8>, i0: usize) -> (i: usize)
    requires
        i0 <= v.len(),
    ensures
        i0 <= i <= v.len(),
        skip_ws(v@.skip(i0 as int)) == v@.skip(i as int),
        i < v.len() ==> !is_ws(v@[i as int]),
    decreases v.len() - i0,
{
    let n = v.len();
    let mut i = i0;
    while i < n && ws_byte(v[i])
        invariant
            i0 <= i <= n,
            n == v.len(),
            skip_ws(v@.skip(i0 as int)) == skip_ws(v@.skip(i as int)),
        decreases n - i,
    {
        proof {
            assert(v@.skip(i as int).drop_first() =~= v@.skip(i + 1));
        }
        i = i + 1;
    }
    i
}

/// Read the token starting at a non-whitespace position, returning its
/// bytes and the index just past it.
fn read_token(v: &Vec<u8>, i0: usize) -> (r: (Vec<u8>, usize))
    requires
        i0 <= v.len(),
        i0 < v.len() ==> !is_ws(v@[i0 as int]),
    ensures
        r.0@ == token_of(v@.skip(i0 as int)),
        i0 <= r.1 <= v.len(),
        after_token(v@.skip(i0 as int)) == v@.skip(r.1 as int),
        r.1 < v.len() ==> is_ws(v@[r.1 as int]),
{
    let n = v.len();
    let mut i = i0;
    let mut tok: Vec<u8> = Vec::new();
    while i < n && !ws_byte(v[i])
        invariant
            i0 <= i <= n,
            n == v.len(),
            token_of(v@.skip(i0 as int)) == tok@ + token_of(v@.skip(i as int)),
            after_token(v@.skip(i0 as int)) == after_token(v@.skip(i as int)),
        decreases n - i,
    {
        proof {
            assert(v@.skip(i as int).drop_first() =~= v@.skip(i + 1));
        }
        let ghost tok0 = tok@;
        tok.push(v[i]);
        proof {
            assert(tok0.push(v@[i as int]) + token_of(v@.skip(i + 1)) =~= tok0 + (seq![
                v@[i as int],
            ] + token_of(v@.skip(i + 1))));
        }
        i = i + 1;
    }
    proof {
        assert(tok@ + token_of(v@.skip(i as int)) =~= tok@);
    }
    (tok, i)
}


/// True when the token is the AZIMUTH verb.
fn is_azimuth_verb(t: &Vec<u8>) -> (r: bool)
    ensures
        r == (t@ == azimuth_bytes()),
{
    let r = t.len() == 7 && t[0] == 65 && t[1] == 90 && t[2] == 73 && t[3] == 77 && t[4] == 85
        && t[5] == 84 && t[6] == 72;
    proof {
        if r {
            assert(t@ =~= azimuth_bytes());
        }
    }
    r
}

/// True when the token is the ELEVATION verb.
fn is_elevation_verb(t: &Vec<u8>) -> (r: bool)
    ensures
        r == (t@ == elevation_bytes()),
{
    let r = t.len() == 9 && t[0] == 69 && t[1] == 76 && t[2] == 69 && t[3] == 86 && t[4] == 65
        && t[5] == 84 && t[6] == 73 && t[7] == 79 && t[8] == 78;
    proof {
        if r {
            assert(t@ =~= elevation_bytes());
        }
    }
    r
}

/// True when the token is the REMOTE verb.
fn is_remote_verb(t: &Vec<u8>) -> (r: bool)
    ensures
        r == (t@ == remote_bytes()),
{
    let r = t.len() == 6 && t[0] == 82 && t[1] == 69 && t[2] == 77 && t[3] == 79 && t[4] == 84
        && t[5] == 69;
    proof {
        if r {
            assert(t@ =~= remote_bytes());
        }
    }
    r
}

/// True when the token is the SERVOON verb.
fn is_servoon_verb(t: &Vec<u8>) -> (r: bool)
    ensures
        r == (t@ == servoon_bytes()),
{
    let r = t.len() == 7 && t[0] == 83 && t[1] == 69 && t[2] == 82 && t[3] == 86 && t[4] == 79
        && t[5] == 79 && t[6] == 78;
    proof {
        if r {
            assert(t@ =~= servoon_bytes());
        }
    }
    r
}

/// Classify one complete command line (without its terminator).
pub fn parse_line(line: &[u8]) -> (r: LineOutcome)
    ensures
        r == classify_spec(line@),
{
    let u = to_upper_vec(line);
    proof {
        assert(u@.skip(0) =~= u@);
    }
    let i1 = skip_ws_idx(&u, 0);
    let (t1, j1) = read_token(&u, i1);
    let i2 = skip_ws_idx(&u, j1);
    let (t2, j2) = read_token(&u, i2);
    let i3 = skip_ws_idx(&u, j2);
    let (t3, _j3) = read_token(&u, i3);
    proof {
        assert(first_token(u@) == t1@);
        assert(rest_tokens(u@) == u@.skip(j1 as int));
        assert(first_token(u@.skip(j1 as int)) == t2@);
        assert(rest_tokens(u@.skip(j1 as int)) == u@.skip(j2 as int));
        assert(first_token(u@.skip(j2 as int)) == t3@);
    }
    if is_azimuth_verb(&t1) {
        if t2.len() == 0 {
            LineOutcome::Dispatch(RadarCommand::AzimuthQuery)
        } else if t3.len() == 0 {
            match parse_angle(t2.as_slice()) {
                Some(v) => LineOutcome::Dispatch(RadarCommand::Azimuth(v)),
                None => LineOutcome::Ignore,
            }
        } else {
            LineOutcome::Unknown
        }
    } else if is_elevation_verb(&t1) {
        if t2.len() == 0 {
            LineOutcome::Dispatch(RadarCommand::ElevationQuery)
        } else if t3.len() == 0 {
            match parse_angle(t2.as_slice()) {
                Some(v) => LineOutcome::Dispatch(RadarCommand::Elevation(v)),
                None => LineOutcome::Ignore,
            }
        } else {
            LineOutcome::Unknown
        }
    } else if is_remote_verb(&t1) && t2.len() == 0 {
        LineOutcome::Dispatch(RadarCommand::Remote)
    } else if is_servoon_verb(&t1) && t2.len() == 0 {
        LineOutcome::Dispatch(RadarCommand::ServoOn)
    } else {
        LineOutcome::Unknown
    }
}

/// Index of the first carriage return, or the length when there is
/// none.
pub open spec fn first_cr(s: Seq<u8>) -> int
    decreases s.len(),
{
    if s.len() == 0 {
        0
    } else if s[0] == 13 {
        0
    } else {
        1 + first_cr(s.drop_first())
    }
}

/// A position before which no carriage return occurs, and which holds
/// one or is the end, is the first carriage return.
proof fn lemma_first_cr_unique(s: Seq<u8>, k: int)
    requires
        0 <= k <= s.len(),
        forall|i: int| 0 <= i < k ==> s[i] != 13,
        k < s.len() ==> s[k] == 13,
    ensures
        first_cr(s) == k,
    decreases s.len(),
{
    if s.len() > 0 && s[0] != 13 {
        assert forall|i: int| 0 <= i < k - 1 implies s.drop_first()[i] != 13 by {
            assert(s[i + 1] != 13);
        }
        lemma_first_cr_unique(s.drop_first(), k - 1);
    }
}

/// Per-connection accumulation of raw bytes, drained one carriage-
/// return-terminated command line at a time.
pub struct LineBuffer {
    data: Vec<u8>,
}

impl LineBuffer {
    /// The bytes received but not yet drained as complete lines.
    pub closed spec fn pending(&self) -> Seq<u8> {
        self.data@
    }

    /// An empty buffer.
    pub fn new() -> (r: Self)
        ensures
            r.pending() == Seq::<u8>::empty(),
    {
        LineBuffer { data: Vec::new() }
    }

    /// Append freshly received bytes.
    pub fn feed(&mut self, bytes: &[u8])
        ensures
            final(self).pending() == old(self).pending() + bytes@,
    {
        self.data.extend_from_slice(bytes);
    }

    /// Drain the first complete line, without its terminator, if one
    /// whole line has arrived.
    pub fn next_line(&mut self) -> (r: Option<Vec<u8>>)
        ensures
            ({
                let p = old(self).pending();
                let cr = first_cr(p);
                if cr < p.len() {
                    &&& r matches Some(line) && line@ == p.take(cr)
                    &&& final(self).pending() == p.skip(cr + 1)
                } else {
                    r is None && final(self).pending() == p
                }
            }),
    {
        let n = self.data.len();
        let mut i: usize = 0;
        while i < n && self.data[i] != 13
            invariant
                i <= n,
                n == self.data.len(),
                self.data == old(self).data,
                forall|j: int| 0 <= j < i ==> self.data@[j] != 13,
            decreases n - i,
        {
            i = i + 1;
        }
        if i == n {
            proof {
                lemma_first_cr_unique(self.data@, n as int);
            }
            return None;
        }
        proof {
            lemma_first_cr_unique(self.data@, i as int);
        }
        let mut tail = self.data.split_off(i + 1);
        core::mem::swap(&mut self.data, &mut tail);
        let mut line = tail;
        line.pop();
        proof {
            assert(line@ =~= old(self).pending().take(i as int));
        }
        Some(line)
    }
}


/// The reply acknowledging an accepted command.
pub open spec fn no_errors_reply() -> Seq<u8> {
    seq![78u8, 111, 32, 69, 114, 114, 111, 114, 115, 46, 13, 10]
}

/// The reply to REMOTE.
pub open spec fn remote_reply() -> Seq<u8> {
    seq![79u8, 13, 10]
}

/// The reply to an unrecognized command line.
pub open spec fn unknown_reply() -> Seq<u8> {
    seq![85u8, 110, 107, 110, 111, 119, 110, 32, 99, 111, 109, 109, 97, 110, 100, 10]
}

/// The reply to a query: the angle with two fraction digits, then CRLF.
pub open spec fn query_reply(x: int) -> Seq<u8> {
    crate::numtext::fmt_angle_spec(x) + seq![13u8, 10]
}

/// Build the `No Errors.` reply.
pub fn reply_no_errors() -> (r: Vec<u8>)
    ensures
        r@ == no_errors_reply(),
{
    let mut v: Vec<u8> = Vec::new();
    v.push(78);
    v.push(111);
    v.push(32);
    v.push(69);
    v.push(114);
    v.push(114);
    v.push(111);
    v.push(114);
    v.push(115);
    v.push(46);
    v.push(13);
    v.push(10);
    proof {
        assert(v@ =~= no_errors_reply());
    }
    v
}

/// Build the `O` reply.
pub fn reply_remote() -> (r: Vec<u8>)
    ensures
        r@ == remote_reply(),
{
    let mut v: Vec<u8> = Vec::new();
    v.push(79);
    v.push(13);
    v.push(10);
    proof {
        assert(v@ =~= remote_reply());
    }
    v
}

/// Build the `Unknown command` reply.
pub fn reply_unknown() -> (r: Vec<u8>)
    ensures
        r@ == unknown_reply(),
{
    let mut v: Vec<u8> = Vec::new();
    v.push(85);
    v.push(110);
    v.push(107);
    v.push(110);
    v.push(111);
    v.push(119);
    v.push(110);
    v.push(32);
    v.push(99);
    v.push(111);
    v.push(109);
    v.push(109);
    v.push(97);
    v.push(110);
    v.push(100);
    v.push(10);
    proof {
        assert(v@ =~= unknown_reply());
    }
    v
}

/// Build a query reply for the given current angle.
pub fn reply_query(x: i64) -> (r: Vec<u8>)
    requires
        -crate::servo::MAX_POSITION <= x <= crate::servo::MAX_POSITION,
    ensures
        r@ == query_reply(x as int),
{
    let mut v = crate::numtext::format_angle(x);
    v.push(13);
    v.push(10);
    proof {
        assert(v@ =~= query_reply(x as int));
    }
    v
}

/// A command produced by classification always carries an argument in
/// the commandable range.
pub proof fn lemma_classify_ok(line: Seq<u8>)
    ensures
        classify_spec(line) matches LineOutcome::Dispatch(cmd) ==> crate::radar::command_ok(cmd),
{
    let u = upper_seq(line);
    let r1 = rest_tokens(u);
    let t2 = first_token(r1);
    crate::numtext::lemma_parse_angle_bounds(t2);
}

} // verus!
