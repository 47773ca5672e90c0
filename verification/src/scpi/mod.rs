//! The SCPI layer: command strings, reply parsing and validation.

use vstd::prelude::*;

use crate::text::{
    append_chars, append_str, chars_eq_str, chars_of, dec_digits, is_ws, join, join_chars,
    lemma_split_prefix, lemma_trim_commute, lemma_trim_end_prepend, lemma_trim_idempotent,
    lemma_trim_start_append, lemma_trim_start_shape, parse_u32_radix, parse_unsigned, split,
    split_chars, string_of, trim, trim_chars, trim_end, trim_start, trim_str, views,
};

pub mod commands;

verus! {

// ---------------------------------------------------------------------------
// IDN response
// ---------------------------------------------------------------------------

/// Parsed `*IDN?` response: `<Manufacturer>,<Model>,<Serial>,<FirmwareVersion>`
#[derive(Debug, Clone)]
pub struct IdnResponse {
    pub manufacturer: String,
    pub model: String,
    /// 26 hyphen-separated hex values encoding firmware configuration constants
    pub serial: String,
    pub firmware_version: String,
}

/// The pieces of `s` at the first `n - 1` occurrences of `c`, the last piece
/// keeping any further occurrences (`str::splitn`).
pub open spec fn splitn(s: Seq<char>, n: nat, c: char) -> Seq<Seq<char>> {
    let p = split(s, c);
    if p.len() <= n {
        p
    } else {
        p.take(n - 1).push(join(p.skip(n - 1), seq![c]))
    }
}

/// The fields of an identification: manufacturer, model, serial field and
/// firmware version.
pub open spec fn idn_view(idn: IdnResponse) -> (Seq<char>, Seq<char>, Seq<char>, Seq<char>) {
    (idn.manufacturer@, idn.model@, idn.serial@, idn.firmware_version@)
}

/// The fields of a `*IDN?` response: the trimmed response cut at its first
/// three commas, each of the four pieces trimmed; nothing when there are
/// fewer than four pieces.
pub open spec fn parsed_idn(response: Seq<char>) -> Option<(Seq<char>, Seq<char>, Seq<char>, Seq<char>)> {
    let p = splitn(trim(response), 4, ',');
    if p.len() >= 4 {
        Some((trim(p[0]), trim(p[1]), trim(p[2]), trim(p[3])))
    } else {
        None
    }
}

impl IdnResponse {
    /// Parse a raw `*IDN?` response string (see [`parsed_idn`]).
    pub fn parse(response: &str) -> (r: Option<Self>)
        ensures
            match r {
                Some(idn) => parsed_idn(response@) == Some(idn_view(idn)),
                None => parsed_idn(response@) is None,
            },
    {
        let t = trim_str(response);
        let parts = split_chars(&t, ',');
        proof {
            crate::text::lemma_split_len(t@, ',');
        }
        if parts.len() < 4 {
            return None;
        }
        let mut rest: Vec<Vec<char>> = Vec::new();
        let mut i: usize = 3;
        while i < parts.len()
            invariant
                3 <= i <= parts.len(),
                views(rest@) == views(parts@).subrange(3, i as int),
            decreases parts.len() - i,
        {
            let piece = crate::text::sub_chars(&parts[i], 0, parts[i].len());
            assert(piece@ =~= parts@[i as int]@);
            let ghost before = views(rest@);
            rest.push(piece);
            assert(views(rest@) =~= before.push(views(parts@)[i as int]));
            i = i + 1;
            assert(views(rest@) =~= views(parts@).subrange(3, i as int));
        }
        let sep = chars_of(",");
        let last = join_chars(&rest, &sep);
        assert(views(parts@).subrange(3, parts.len() as int) =~= views(parts@).skip(3));
        assert(views(parts@)[0] == parts@[0]@);
        assert(views(parts@)[1] == parts@[1]@);
        assert(views(parts@)[2] == parts@[2]@);
        proof {
            reveal_strlit(",");
            assert(sep@ =~= seq![',']);
            let p = views(parts@);
            if p.len() > 4 {
                assert(p.take(3).push(join(p.skip(3), seq![',']))[3] == join(p.skip(3), seq![',']));
            } else {
                assert(p.skip(3) =~= seq![p[3]]);
            }
        }
        Some(IdnResponse {
            manufacturer: string_of(&trim_chars(&parts[0])),
            model: string_of(&trim_chars(&parts[1])),
            serial: string_of(&trim_chars(&parts[2])),
            firmware_version: string_of(&trim_chars(&last)),
        })
    }
}

/// The reply text of four identification fields: manufacturer, model,
/// serial field and firmware version, separated by commas.
pub open spec fn idn_text(
    manufacturer: Seq<char>,
    model: Seq<char>,
    serial: Seq<char>,
    firmware_version: Seq<char>,
) -> Seq<char> {
    manufacturer + seq![','] + model + seq![','] + serial + seq![','] + firmware_version
}

/// A reply made of four fields, the first three without a comma, is read
/// back as those four fields, trimmed.
pub proof fn lemma_idn_fields_roundtrip(
    manufacturer: Seq<char>,
    model: Seq<char>,
    serial: Seq<char>,
    firmware_version: Seq<char>,
)
    requires
        !manufacturer.contains(','),
        !model.contains(','),
        !serial.contains(','),
    ensures
        parsed_idn(idn_text(manufacturer, model, serial, firmware_version)) == Some(
            (trim(manufacturer), trim(model), trim(serial), trim(firmware_version)),
        ),
{
    reveal_strlit(",");
    let c = seq![','];
    let m = manufacturer;
    let v = firmware_version;
    assert(!is_ws(','));
    let rest = c + model + c + serial + c + v;
    assert(idn_text(m, model, serial, v) =~= m + rest);
    assert(rest[0] == ',');
    lemma_trim_start_append(m, rest);
    let m1 = trim_start(m);
    lemma_trim_start_shape(m);
    assert(!m1.contains(',')) by {
        if m1.contains(',') {
            let j = choose|j: int| 0 <= j < m1.len() && m1[j] == ',';
            assert(m[m.len() - m1.len() + j] == ',');
        }
    }
    let pre = m1 + c + model + c + serial + c;
    assert(m1 + rest =~= pre + v);
    assert(pre.last() == ',');
    lemma_trim_end_prepend(pre, v);
    let v1 = trim_end(v);
    let t = trim(idn_text(m, model, serial, v));
    assert(t == pre + v1);
    let y = serial + c + v1;
    let x = model + c + y;
    assert(t =~= m1 + c + x);
    lemma_split_prefix(m1, ',', x);
    lemma_split_prefix(model, ',', y);
    lemma_split_prefix(serial, ',', v1);
    let q = split(v1, ',');
    let p = split(t, ',');
    assert(p =~= seq![m1, model, serial] + q);
    crate::text::lemma_split_len(v1, ',');
    crate::text::lemma_join_split(v1, ',');
    assert(p.skip(3) =~= q);
    if q.len() == 1 {
        assert(q[0] == v1);
    }
    lemma_trim_idempotent(m);
    lemma_trim_idempotent(trim_start(v));
    lemma_trim_commute(v);
}

/// The identification in a `*IDN?` reply, or a message quoting the reply
/// when it cannot be read.
pub fn idn_from_reply(reply: &str) -> (r: Result<IdnResponse, String>)
    ensures
        match r {
            Ok(idn) => parsed_idn(reply@) == Some(idn_view(idn)),
            Err(m) => parsed_idn(reply@) is None && m@ == "Could not parse IDN: '"@ + reply@ + "'"@,
        },
{
    match IdnResponse::parse(reply) {
        Some(idn) => Ok(idn),
        None => {
            let mut v: Vec<char> = Vec::new();
            append_str(&mut v, "Could not parse IDN: '");
            append_str(&mut v, reply);
            append_str(&mut v, "'");
            Err(string_of(&v))
        },
    }
}

// ---------------------------------------------------------------------------
// Validation helpers
// ---------------------------------------------------------------------------

pub const FREQ_MIN_HZ: u32 = 7_183;
pub const FREQ_MAX_HZ: u32 = 100_000;

/// The message given for a frequency outside the supported range.
pub open spec fn frequency_range_message() -> Seq<char> {
    "Frequency must be between "@ + dec_digits(FREQ_MIN_HZ as nat) + " Hz and "@ + dec_digits(
        FREQ_MAX_HZ as nat,
    ) + " Hz."@
}

/// Accepts a whole-hertz frequency inside `FREQ_MIN_HZ ..= FREQ_MAX_HZ`.
pub fn check_frequency_range(hz: u32) -> (r: Result<u32, String>)
    ensures
        FREQ_MIN_HZ <= hz <= FREQ_MAX_HZ ==> r == Ok::<u32, String>(hz),
        !(FREQ_MIN_HZ <= hz <= FREQ_MAX_HZ) ==> (r matches Err(m) && m@ == frequency_range_message()),
{
    if hz < FREQ_MIN_HZ || hz > FREQ_MAX_HZ {
        let mut v: Vec<char> = Vec::new();
        append_str(&mut v, "Frequency must be between ");
        append_chars(&mut v, &crate::text::dec_chars(FREQ_MIN_HZ as u64));
        append_str(&mut v, " Hz and ");
        append_chars(&mut v, &crate::text::dec_chars(FREQ_MAX_HZ as u64));
        append_str(&mut v, " Hz.");
        Err(string_of(&v))
    } else {
        Ok(hz)
    }
}

// ---------------------------------------------------------------------------
// Response parsers
// ---------------------------------------------------------------------------

/// Parse a SCPI boolean response ("0" → false, "1" → true), ignoring
/// surrounding whitespace.
pub fn parse_bool(response: &str) -> (r: Option<bool>)
    ensures
        r == (if trim(response@) == seq!['0'] {
            Some(false)
        } else if trim(response@) == seq!['1'] {
            Some(true)
        } else {
            None::<bool>
        }),
{
    let t = trim_str(response);
    proof {
        reveal_strlit("0");
        reveal_strlit("1");
        assert("0"@ =~= seq!['0']);
        assert("1"@ =~= seq!['1']);
    }
    if chars_eq_str(&t, "0") {
        Some(false)
    } else if chars_eq_str(&t, "1") {
        Some(true)
    } else {
        None
    }
}


// ---------------------------------------------------------------------------
// Serial line protocol
// ---------------------------------------------------------------------------

/// The bytes sent for a command: the command text and a line feed.
pub fn command_line(cmd: &str) -> (r: String)
    ensures
        r@ == cmd@.push('\n'),
{
    let mut v = chars_of(cmd);
    v.push('\n');
    string_of(&v)
}

/// Takes in one byte of a reply line. The line ends at a line feed, which
/// is not kept; every other byte, a carriage return included, is kept (the
/// trim in [`finish_reply`] removes a carriage return that ends the line).
/// Returns whether the line is complete.
pub fn accept_reply_byte(buf: &mut Vec<u8>, byte: u8) -> (done: bool)
    ensures
        done == (byte == 10),
        final(buf)@ == (if byte == 10 {
            old(buf)@
        } else {
            old(buf)@.push(byte)
        }),
{
    if byte == 10 {
        return true;
    }
    buf.push(byte);
    false
}

/// `String::from_utf8`: the bytes decoded as UTF-8 when they are valid
/// UTF-8. On failure the error's text is handed back; what it says is not
/// stated here.
#[verifier::external_body]
fn decode_utf8_bytes(bytes: Vec<u8>) -> (r: Result<String, String>)
    ensures
        r is Ok <==> vstd::utf8::valid_utf8(bytes@),
        r matches Ok(s) ==> s@ == vstd::utf8::decode_utf8(bytes@),
{
    match String::from_utf8(bytes) {
        Ok(s) => Ok(s),
        Err(e) => Err(format!("{}", e)),
    }
}

/// The reply text of a received line: the bytes decoded as UTF-8 and
/// trimmed, or a message when they are not valid UTF-8.
pub fn finish_reply(buf: Vec<u8>) -> (r: Result<String, String>)
    ensures
        r is Ok <==> vstd::utf8::valid_utf8(buf@),
        r matches Ok(s) ==> s@ == trim(vstd::utf8::decode_utf8(buf@)),
        r matches Err(m) ==> has_prefix_str(m@, "Invalid UTF-8 in SCPI response: "@),
{
    match decode_utf8_bytes(buf) {
        Ok(s) => {
            let t = trim_str(s.as_str());
            Ok(string_of(&t))
        },
        Err(e) => {
            let mut v: Vec<char> = Vec::new();
            append_str(&mut v, "Invalid UTF-8 in SCPI response: ");
            let ghost head = v@;
            append_str(&mut v, e.as_str());
            assert(v@.take(head.len() as int) =~= head);
            Err(string_of(&v))
        },
    }
}

/// `m` begins with `p`.
pub open spec fn has_prefix_str(m: Seq<char>, p: Seq<char>) -> bool {
    crate::text::has_prefix(m, p)
}

// ---------------------------------------------------------------------------
// Error queue
// ---------------------------------------------------------------------------

/// The number of queued errors reported by `SYSTem:ERRor:COUNt?`: the
/// trimmed reply read as a decimal number, or zero when it is not one.
pub fn error_count(reply: &str) -> (n: u32)
    ensures
        n == (match parse_unsigned(trim(reply@), 10, 0xffff_ffff) {
            Some(v) => v,
            None => 0,
        }),
{
    let t = trim_str(reply);
    match parse_u32_radix(&t, 10) {
        Some(v) => v,
        None => 0,
    }
}

/// What reading the error queue reports: the summary of the errors, or a
/// message when the queue could not be read.
pub fn error_queue_report(result: Result<String, String>) -> (r: String)
    ensures
        match result {
            Ok(summary) => r@ == summary@,
            Err(e) => r@ == "(error queue check failed: "@ + e@ + ")"@,
        },
{
    match result {
        Ok(summary) => summary,
        Err(e) => {
            let mut v: Vec<char> = Vec::new();
            append_str(&mut v, "(error queue check failed: ");
            append_str(&mut v, e.as_str());
            append_str(&mut v, ")");
            string_of(&v)
        },
    }
}

/// An error queue entry that reports an actual error (a reply that does not
/// begin with the "no error" code `0`).
pub open spec fn is_reported_error(e: Seq<char>) -> bool {
    !(e.len() > 0 && e[0] == '0')
}

/// The reported errors among the replies of `SYSTem:ERRor?`, in order,
/// separated by `"; "`.
pub open spec fn error_summary(replies: Seq<Seq<char>>) -> Seq<char> {
    join(replies.filter(|e: Seq<char>| is_reported_error(e)), "; "@)
}

/// Combines the replies of `SYSTem:ERRor?` into one message (see
/// [`error_summary`]).
pub fn summarize_errors(replies: &Vec<String>) -> (r: String)
    ensures
        r@ == error_summary(replies@.map_values(|s: String| s@)),
{
    let ghost all = replies@.map_values(|s: String| s@);
    let mut kept: Vec<Vec<char>> = Vec::new();
    let mut i: usize = 0;
    assert(all.take(0) =~= Seq::<Seq<char>>::empty());
    proof {
        reveal_with_fuel(Seq::<_>::filter, 1);
    }
    while i < replies.len()
        invariant
            i <= replies.len(),
            all == replies@.map_values(|s: String| s@),
            views(kept@) == all.take(i as int).filter(|e: Seq<char>| is_reported_error(e)),
        decreases replies.len() - i,
    {
        let e = chars_of(replies[i].as_str());
        assert(all.take(i + 1).drop_last() =~= all.take(i as int));
        assert(all.take(i + 1).last() == e@);
        proof {
            reveal_with_fuel(Seq::<_>::filter, 1);
        }
        let keep = !(e.len() > 0 && e[0] == '0');
        if keep {
            let ghost before = views(kept@);
            kept.push(e);
            assert(views(kept@) =~= before.push(all.take(i + 1).last()));
        }
        i = i + 1;
    }
    assert(all.take(replies.len() as int) =~= all);
    let sep = chars_of("; ");
    let j = join_chars(&kept, &sep);
    string_of(&j)
}

/// The number of queued errors a `SYSTem:ERRor:COUNt?` reply reports: the
/// trimmed reply read as a decimal `u32`, or zero when it is not one.
pub open spec fn reported_count(reply: Seq<char>) -> nat {
    match parse_unsigned(trim(reply), 10, 0xffff_ffff) {
        Some(v) => v,
        None => 0,
    }
}

/// Reading the error queue after a connection: how many `SYSTem:ERRor?`
/// queries are still to be sent, and the replies received so far.
pub struct ErrorQueueRead {
    pub remaining: u32,
    pub replies: Vec<String>,
}

impl ErrorQueueRead {
    /// Starts from the reply to `SYSTem:ERRor:COUNt?`: one query per
    /// reported error.
    pub fn start(count_reply: &str) -> (q: Self)
        ensures
            q.remaining == reported_count(count_reply@),
            q.replies@.len() == 0,
    {
        ErrorQueueRead { remaining: error_count(count_reply), replies: Vec::new() }
    }

    /// The next query to send, `SYSTem:ERRor?`, while errors remain to be
    /// read; nothing once all are read.
    pub fn next_query(&self) -> (cmd: Option<&'static str>)
        ensures
            match cmd {
                Some(c) => self.remaining > 0 && c@ == commands::SYS_ERROR@,
                None => self.remaining == 0,
            },
    {
        if self.remaining > 0 {
            Some(commands::SYS_ERROR)
        } else {
            None
        }
    }

    /// Takes in the reply to one `SYSTem:ERRor?` query.
    pub fn take_reply(&mut self, reply: String)
        requires
            old(self).remaining > 0,
        ensures
            final(self).remaining == old(self).remaining - 1,
            final(self).replies@ == old(self).replies@.push(reply),
    {
        self.remaining = self.remaining - 1;
        self.replies.push(reply);
    }

    /// The reported errors among the replies (see [`error_summary`]).
    pub fn summary(&self) -> (r: String)
        ensures
            r@ == error_summary(self.replies@.map_values(|s: String| s@)),
    {
        summarize_errors(&self.replies)
    }
}

/// A single reply is summarised as nothing when it begins with `0` (the
/// code of "no error"), and as itself otherwise.
pub proof fn lemma_error_summary_single(e: Seq<char>)
    ensures
        (e.len() > 0 && e[0] == '0') ==> error_summary(seq![e]) == Seq::<char>::empty(),
        !(e.len() > 0 && e[0] == '0') ==> error_summary(seq![e]) == e,
{
    reveal_with_fuel(Seq::<_>::filter, 2);
    let pred = |x: Seq<char>| is_reported_error(x);
    assert(seq![e].drop_last() =~= Seq::<Seq<char>>::empty());
    assert(seq![e].last() == e);
    assert(Seq::<Seq<char>>::empty().filter(pred) =~= Seq::<Seq<char>>::empty());
    if !(e.len() > 0 && e[0] == '0') {
        assert(seq![e].filter(pred) =~= seq![e]);
    } else {
        assert(seq![e].filter(pred) =~= Seq::<Seq<char>>::empty());
    }
}

/// A further reply that begins with `0` leaves the summary as it was.
pub proof fn lemma_error_summary_skips_no_error(rs: Seq<Seq<char>>, e: Seq<char>)
    requires
        e.len() > 0,
        e[0] == '0',
    ensures
        error_summary(rs.push(e)) == error_summary(rs),
{
    reveal_with_fuel(Seq::<_>::filter, 1);
    assert(rs.push(e).drop_last() =~= rs);
}

/// A further reply that does not begin with `0` is added to the summary
/// after `"; "`, once an earlier reply (`rs[i]`) that does not begin with
/// `0` is there.
pub proof fn lemma_error_summary_appends(rs: Seq<Seq<char>>, e: Seq<char>, i: int)
    requires
        0 <= i < rs.len(),
        !(rs[i].len() > 0 && rs[i][0] == '0'),
        !(e.len() > 0 && e[0] == '0'),
    ensures
        error_summary(rs.push(e)) == error_summary(rs) + "; "@ + e,
{
    broadcast use vstd::seq_lib::group_filter_ensures;
    reveal_with_fuel(Seq::<_>::filter, 1);
    let pred = |x: Seq<char>| is_reported_error(x);
    assert(rs.push(e).drop_last() =~= rs);
    let f = rs.filter(pred);
    assert(pred(rs[i]));
    rs.lemma_filter_contains(pred, i);
    assert(f.len() > 0);
    assert(rs.push(e).filter(pred) == f.push(e));
    assert(f.push(e).drop_last() =~= f);
}

/// Replies none of which begins with `0` are all kept, in order, joined
/// with `"; "`.
pub proof fn lemma_error_summary_keeps_errors(rs: Seq<Seq<char>>)
    requires
        forall|i: int| 0 <= i < rs.len() ==> !(rs[i].len() > 0 && #[trigger] rs[i][0] == '0'),
    ensures
        error_summary(rs) == join(rs, "; "@),
{
    lemma_filter_all_reported(rs);
}

proof fn lemma_filter_all_reported(rs: Seq<Seq<char>>)
    requires
        forall|i: int| 0 <= i < rs.len() ==> !(rs[i].len() > 0 && #[trigger] rs[i][0] == '0'),
    ensures
        rs.filter(|x: Seq<char>| is_reported_error(x)) == rs,
    decreases rs.len(),
{
    reveal_with_fuel(Seq::<_>::filter, 1);
    if rs.len() > 0 {
        let init = rs.drop_last();
        assert forall|i: int| 0 <= i < init.len() implies !(init[i].len() > 0 && #[trigger] init[i][0] == '0') by {
            assert(init[i] == rs[i]);
            if rs[i].len() > 0 {
                assert(!(rs[i].len() > 0 && rs[i][0] == '0'));
            }
        }
        lemma_filter_all_reported(init);
        let k = rs.len() - 1;
        if rs[k].len() > 0 {
            assert(!(rs[k].len() > 0 && rs[k][0] == '0'));
        }
        assert(rs[k] == rs.last());
        assert(init.push(rs.last()) =~= rs);
    }
}

} // verus!
