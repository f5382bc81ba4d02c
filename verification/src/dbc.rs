//! Signal dictionaries: a tolerant line parser assembles message and signal
//! definitions out of dictionary text, and a manager keeps loaded
//! dictionaries by path and priority and resolves frames to decoded
//! messages with verified bit extraction, sign extension, and exact
//! decimal scale factors.

use vstd::prelude::*;
use vstd::slice::slice_subrange;
use crate::bits::{be_bits, extract_bits_be, extract_bits_le, le_bits, pow2_u64};
use crate::data_layer::{clone_bytes, CanFrame, ParseError};
use crate::dbc_text::{parse_bo_line, parse_sg_line, spec_bo_line, spec_sg_line, Decimal,
    SignalDef, SpecSignal};
use vstd::arithmetic::power2::{lemma2_to64, lemma_pow2_adds, lemma_pow2_pos,
    lemma_pow2_strictly_increases, pow2};

verus! {

/// One message definition of a dictionary.
#[derive(Clone, Debug)]
pub struct MessageDef {
    /// Message identifier; extended identifiers carry bit 31 cleared.
    pub id: u32,
    /// Message name.
    pub name: Vec<u8>,
    /// Declared byte size, informational.
    pub size: u32,
    /// Sending node, empty where the line names none.
    pub sender: Vec<u8>,
    /// The message's signals, in line order.
    pub signals: Vec<SignalDef>,
}

/// Mathematical image of a message definition.
#[verifier::ext_equal]
pub ghost struct SpecMessage {
    /// Message identifier.
    pub id: u32,
    /// Message name.
    pub name: Seq<u8>,
    /// Declared byte size.
    pub size: u32,
    /// Sending node.
    pub sender: Seq<u8>,
    /// The message's signals.
    pub signals: Seq<SpecSignal>,
}

impl DeepView for MessageDef {
    type V = SpecMessage;

    open spec fn deep_view(&self) -> SpecMessage {
        SpecMessage {
            id: self.id,
            name: self.name@,
            size: self.size,
            sender: self.sender@,
            signals: self.signals.deep_view(),
        }
    }
}

/// A parsed dictionary: its messages in file order.
#[derive(Clone, Debug)]
pub struct Dictionary {
    /// Message definitions in the order their lines appear.
    pub messages: Vec<MessageDef>,
}

/// The first position at or after `i` holding a newline, or the end.
pub open spec fn line_end(s: Seq<u8>, i: int) -> int
    decreases s.len() - i,
{
    if i < 0 || i >= s.len() || s[i] == 10 {
        i
    } else {
        line_end(s, i + 1)
    }
}

/// Line scans are monotone and bounded by the length.
pub proof fn lemma_line_end_bounds(s: Seq<u8>, i: int)
    requires
        0 <= i <= s.len(),
    ensures
        i <= line_end(s, i) <= s.len(),
    decreases s.len() - i,
{
    if i < s.len() && s[i] != 10 {
        lemma_line_end_bounds(s, i + 1);
    }
}

/// The signals of the message block starting at line position `i`: signal
/// lines are collected, lines that parse as neither a message nor a signal
/// are skipped, and the block ends at the next message line or the end.
pub open spec fn spec_sigs_from(c: Seq<u8>, i: int) -> Seq<SpecSignal>
    decreases c.len() + 1 - i,
        when i <= c.len() + 1
        via spec_sigs_from_decreases
{
    if i < 0 || i >= c.len() {
        Seq::empty()
    } else {
        let le = line_end(c, i);
        let line = c.subrange(i, le);
        if spec_bo_line(line) is Some {
            Seq::empty()
        } else {
            match spec_sg_line(line) {
                Some(sig) => seq![sig] + spec_sigs_from(c, le + 1),
                None => spec_sigs_from(c, le + 1),
            }
        }
    }
}

#[via_fn]
proof fn spec_sigs_from_decreases(c: Seq<u8>, i: int) {
    if 0 <= i < c.len() {
        lemma_line_end_bounds(c, i);
    }
}

/// The messages of the dictionary text from line position `i` on: each
/// message line opens a message that collects the signal lines that follow
/// it; any line that parses as neither is skipped.
pub open spec fn spec_messages_from(c: Seq<u8>, i: int) -> Seq<SpecMessage>
    decreases c.len() + 1 - i,
        when i <= c.len() + 1
        via spec_messages_from_decreases
{
    if i < 0 || i >= c.len() {
        Seq::empty()
    } else {
        let le = line_end(c, i);
        let line = c.subrange(i, le);
        match spec_bo_line(line) {
            Some(h) => seq![
                SpecMessage {
                    id: h.id,
                    name: h.name,
                    size: h.size,
                    sender: h.sender,
                    signals: spec_sigs_from(c, le + 1),
                },
            ] + spec_messages_from(c, le + 1),
            None => spec_messages_from(c, le + 1),
        }
    }
}

#[via_fn]
proof fn spec_messages_from_decreases(c: Seq<u8>, i: int) {
    if 0 <= i < c.len() {
        lemma_line_end_bounds(c, i);
    }
}

/// A message with more signals appended.
pub open spec fn spec_extend_msg(m: SpecMessage, extra: Seq<SpecSignal>) -> SpecMessage {
    SpecMessage {
        id: m.id,
        name: m.name,
        size: m.size,
        sender: m.sender,
        signals: m.signals + extra,
    }
}

/// Finds the end of the line starting at `i`.
fn scan_line(c: &[u8], i: usize) -> (j: usize)
    requires
        i <= c@.len(),
    ensures
        j == line_end(c@, i as int),
        i <= j <= c@.len(),
{
    let mut j = i;
    while j < c.len() && c[j] != 10
        invariant
            i <= j <= c@.len(),
            line_end(c@, i as int) == line_end(c@, j as int),
        decreases c@.len() - j,
    {
        j = j + 1;
    }
    j
}

/// Parses dictionary text into its messages. Lines that fit neither the
/// message nor the signal grammar are skipped; a text without a single
/// message definition is rejected.
pub fn parse_dictionary(content: &[u8]) -> (r: Result<Dictionary, ParseError>)
    requires
        content@.len() < usize::MAX,
    ensures
        spec_messages_from(content@, 0).len() > 0 ==> (r matches Ok(d) && d.messages.deep_view()
            == spec_messages_from(content@, 0)),
        spec_messages_from(content@, 0).len() == 0 ==> (r matches Err(e) && e
            == ParseError::DictionaryParseFailed),
{
    let ghost c = content@;
    let mut messages: Vec<MessageDef> = Vec::new();
    let mut pos: usize = 0;
    while pos < content.len()
        invariant
            pos <= c.len() + 1,
            content@ == c,
            c.len() < usize::MAX,
            messages@.len() == 0 ==> spec_messages_from(c, 0) == spec_messages_from(c, pos as int),
            messages@.len() > 0 ==> spec_messages_from(c, 0) == messages.deep_view().take(
                messages@.len() - 1,
            ) + seq![
                spec_extend_msg(
                    messages.deep_view()[messages@.len() - 1],
                    spec_sigs_from(c, pos as int),
                ),
            ] + spec_messages_from(c, pos as int),
        decreases c.len() + 1 - pos,
    {
        let le = scan_line(content, pos);
        let line = slice_subrange(content, pos, le);
        let ghost line_s = c.subrange(pos as int, le as int);
        let next = le + 1;
        match parse_bo_line(line) {
            Some((id, name, size, sender)) => {
                let msg = MessageDef { id, name, size, sender, signals: Vec::new() };
                proof {
                    assert(spec_sigs_from(c, pos as int) =~= Seq::<SpecSignal>::empty());
                    if messages@.len() > 0 {
                        let k = messages@.len() - 1;
                        assert(spec_extend_msg(
                            messages.deep_view()[k],
                            Seq::<SpecSignal>::empty(),
                        ) =~= messages.deep_view()[k]);
                        assert(messages.deep_view().take(k) + seq![messages.deep_view()[k]]
                            =~= messages.deep_view());
                    }
                }
                let ghost deep_before = messages.deep_view();
                messages.push(msg);
                proof {
                    assert(messages.deep_view() =~= deep_before + seq![msg.deep_view()]);
                    assert(messages.deep_view().take(messages@.len() - 1) =~= deep_before);
                    assert(msg.deep_view().signals =~= Seq::<SpecSignal>::empty());
                    assert(spec_extend_msg(msg.deep_view(), spec_sigs_from(c, next as int))
                        =~= SpecMessage {
                        id: msg.id,
                        name: msg.name@,
                        size: msg.size,
                        sender: msg.sender@,
                        signals: spec_sigs_from(c, next as int),
                    });
                    assert(spec_messages_from(c, pos as int) == seq![
                        SpecMessage {
                            id: msg.id,
                            name: msg.name@,
                            size: msg.size,
                            sender: msg.sender@,
                            signals: spec_sigs_from(c, next as int),
                        },
                    ] + spec_messages_from(c, next as int));
                    if deep_before.len() == 0 {
                        assert(messages.deep_view().take(0) =~= Seq::<SpecMessage>::empty());
                        assert(spec_messages_from(c, 0) =~= messages.deep_view().take(
                            messages@.len() - 1,
                        ) + seq![
                            spec_extend_msg(
                                messages.deep_view()[messages@.len() - 1],
                                spec_sigs_from(c, next as int),
                            ),
                        ] + spec_messages_from(c, next as int));
                    } else {
                        assert(spec_messages_from(c, 0) =~= messages.deep_view().take(
                            messages@.len() - 1,
                        ) + seq![
                            spec_extend_msg(
                                messages.deep_view()[messages@.len() - 1],
                                spec_sigs_from(c, next as int),
                            ),
                        ] + spec_messages_from(c, next as int));
                    }
                }
            },
            None => {
                match parse_sg_line(line) {
                    Some(sig) => {
                        if messages.len() > 0 {
                            let ghost deep_before = messages.deep_view();
                            let ghost k = messages@.len() - 1;
                            let mut last = match messages.pop() {
                                Some(m) => m,
                                None => {
                                    proof {
                                        assert(false);
                                    }
                                    return Err(ParseError::DictionaryParseFailed);
                                },
                            };
                            let ghost last_before = last.deep_view();
                            let ghost sig_spec = sig.deep_view();
                            last.signals.push(sig);
                            messages.push(last);
                            proof {
                                assert(spec_sigs_from(c, pos as int) == seq![sig_spec]
                                    + spec_sigs_from(c, next as int));
                                assert(messages.deep_view().take(messages@.len() - 1)
                                    =~= deep_before.take(k));
                                assert(messages.deep_view()[messages@.len() - 1].signals
                                    =~= last_before.signals + seq![sig_spec]);
                                assert(spec_extend_msg(
                                    messages.deep_view()[messages@.len() - 1],
                                    spec_sigs_from(c, next as int),
                                ) =~= spec_extend_msg(
                                    last_before,
                                    seq![sig_spec] + spec_sigs_from(c, next as int),
                                ));
                                assert(spec_messages_from(c, pos as int) == spec_messages_from(
                                    c,
                                    next as int,
                                ));
                            }
                        } else {
                            proof {
                                assert(spec_messages_from(c, pos as int) == spec_messages_from(
                                    c,
                                    next as int,
                                ));
                            }
                        }
                    },
                    None => {
                        proof {
                            assert(spec_messages_from(c, pos as int) == spec_messages_from(
                                c,
                                next as int,
                            ));
                            if messages@.len() > 0 {
                                assert(spec_sigs_from(c, pos as int) == spec_sigs_from(
                                    c,
                                    next as int,
                                ));
                            }
                        }
                    },
                }
            },
        }
        pos = next;
    }
    proof {
        assert(spec_sigs_from(c, pos as int) =~= Seq::<SpecSignal>::empty());
        assert(spec_messages_from(c, pos as int) =~= Seq::<SpecMessage>::empty());
        if messages@.len() > 0 {
            let k = messages@.len() - 1;
            assert(spec_extend_msg(messages.deep_view()[k], Seq::<SpecSignal>::empty())
                =~= messages.deep_view()[k]);
            assert(messages.deep_view().take(k) + seq![messages.deep_view()[k]] + Seq::<
                SpecMessage,
            >::empty() =~= messages.deep_view());
        }
    }
    if messages.len() == 0 {
        return Err(ParseError::DictionaryParseFailed);
    }
    Ok(Dictionary { messages })
}

// ---------------------------------------------------------------------------
// Signal decoding.
// ---------------------------------------------------------------------------

/// Sign extension of a `len`-bit raw value to the 64-bit two's-complement
/// pattern: a value with its top window bit set gains all ones above the
/// window.
pub open spec fn spec_sign_extend(raw: nat, len: nat) -> nat {
    if len == 0 || len >= 64 || raw < pow2((len - 1) as nat) {
        raw
    } else {
        (raw + pow2(64) - pow2(len)) as nat
    }
}

/// The raw value a signal definition extracts from frame data: the bit
/// window read with the declared endianness, sign-extended when the signal
/// is signed.
pub open spec fn spec_raw_of(sig: SpecSignal, data: Seq<u8>) -> nat {
    let base = if sig.little_endian {
        le_bits(data, sig.start_bit as int, sig.bit_length as nat)
    } else {
        be_bits(data, sig.start_bit as int, sig.bit_length as nat)
    };
    if sig.signed {
        spec_sign_extend(base, sig.bit_length as nat)
    } else {
        base
    }
}

/// Whether a signal's window fits the frame data: at most 64 bits wide,
/// within the data bytes, and with at least one data byte present — even a
/// zero-width window needs one byte to read from.
pub open spec fn spec_signal_fits(sig: SpecSignal, data: Seq<u8>) -> bool {
    &&& sig.bit_length <= 64
    &&& sig.start_bit + sig.bit_length <= data.len() * 8
    &&& data.len() >= 1
}

/// One decoded signal: the raw window value and the exact scaling carried
/// for the physical computation.
#[derive(Clone, Debug)]
pub struct ParsedSignal {
    /// Signal name.
    pub name: Vec<u8>,
    /// The extracted raw value, sign-extended for signed signals.
    pub raw_value: u64,
    /// Scale factor, exact.
    pub factor: Decimal,
    /// Offset, exact.
    pub offset: Decimal,
    /// Unit text.
    pub unit: Vec<u8>,
    /// Declared minimum.
    pub min: Decimal,
    /// Declared maximum.
    pub max: Decimal,
    /// Path of the dictionary the definition came from.
    pub source_dbc: Vec<u8>,
}

/// Mathematical image of a decoded signal.
#[verifier::ext_equal]
pub ghost struct SpecParsedSignal {
    /// Signal name.
    pub name: Seq<u8>,
    /// The extracted raw value.
    pub raw_value: u64,
    /// Scale factor.
    pub factor: Decimal,
    /// Offset.
    pub offset: Decimal,
    /// Unit text.
    pub unit: Seq<u8>,
    /// Declared minimum.
    pub min: Decimal,
    /// Declared maximum.
    pub max: Decimal,
    /// Dictionary path.
    pub source_dbc: Seq<u8>,
}

impl DeepView for ParsedSignal {
    type V = SpecParsedSignal;

    open spec fn deep_view(&self) -> SpecParsedSignal {
        SpecParsedSignal {
            name: self.name@,
            raw_value: self.raw_value,
            factor: self.factor,
            offset: self.offset,
            unit: self.unit@,
            min: self.min,
            max: self.max,
            source_dbc: self.source_dbc@,
        }
    }
}

/// The decoded signal a definition produces on the given frame data.
pub open spec fn spec_decode_one(sig: SpecSignal, data: Seq<u8>, source: Seq<u8>) -> SpecParsedSignal {
    SpecParsedSignal {
        name: sig.name,
        raw_value: spec_raw_of(sig, data) as u64,
        factor: sig.factor,
        offset: sig.offset,
        unit: sig.unit,
        min: sig.min,
        max: sig.max,
        source_dbc: source,
    }
}

/// The decoded signals of a definition list on the given frame data, in
/// order; a signal whose window does not fit is skipped.
pub open spec fn spec_decode_signals(sigs: Seq<SpecSignal>, data: Seq<u8>, source: Seq<u8>) -> Seq<
    SpecParsedSignal,
>
    decreases sigs.len(),
{
    if sigs.len() == 0 {
        Seq::empty()
    } else if spec_signal_fits(sigs[0], data) {
        seq![spec_decode_one(sigs[0], data, source)] + spec_decode_signals(
            sigs.drop_first(),
            data,
            source,
        )
    } else {
        spec_decode_signals(sigs.drop_first(), data, source)
    }
}

/// How many signals of a definition list do not fit the frame data.
pub open spec fn spec_failed_signals(sigs: Seq<SpecSignal>, data: Seq<u8>) -> nat
    decreases sigs.len(),
{
    if sigs.len() == 0 {
        0
    } else {
        (if spec_signal_fits(sigs[0], data) {
            0nat
        } else {
            1nat
        }) + spec_failed_signals(sigs.drop_first(), data)
    }
}

/// Sign-extends a `length`-bit raw value to its 64-bit two's-complement
/// pattern.
pub fn sign_extend(raw: u64, length: u16) -> (r: u64)
    requires
        length <= 64,
        raw < pow2(length as nat),
    ensures
        r == spec_sign_extend(raw as nat, length as nat),
{
    if length == 0 || length >= 64 {
        return raw;
    }
    let half = pow2_u64((length - 1) as u64);
    if raw < half {
        raw
    } else {
        proof {
            lemma_pow2_strictly_increases(length as nat, 64);
            assert(pow2(64) == 0x10000000000000000) by {
                lemma2_to64();
                lemma_pow2_adds(32, 32);
                assert(pow2(32) == 0x100000000);
            }
            lemma_pow2_pos(length as nat);
        }
        let p = pow2_u64(length as u64);
        raw + (u64::MAX - p + 1)
    }
}

/// Decodes one signal definition against frame data; nothing where the
/// window does not fit.
pub fn decode_signal(sig: &SignalDef, data: &Vec<u8>, source: &Vec<u8>) -> (r: Option<ParsedSignal>)
    ensures
        spec_signal_fits(sig.deep_view(), data@) ==> (r matches Some(p) && p.deep_view()
            == spec_decode_one(sig.deep_view(), data@, source@)),
        !spec_signal_fits(sig.deep_view(), data@) ==> r is None,
{
    if sig.bit_length > 64 {
        return None;
    }
    if data.len() == 0 {
        return None;
    }
    let start = sig.start_bit as usize;
    let len = sig.bit_length as usize;
    if (start + len + 7) / 8 > data.len() {
        proof {
            assert(start + len > data@.len() * 8) by (nonlinear_arith)
                requires
                    (start + len + 7) / 8 > data@.len(),
                    0 <= start + len,
            ;
        }
        return None;
    }
    proof {
        assert(start + len <= data@.len() * 8) by (nonlinear_arith)
            requires
                (start + len + 7) / 8 <= data@.len(),
                0 <= start + len,
        ;
    }
    let base = if sig.little_endian {
        extract_bits_le(data.as_slice(), start, len)
    } else {
        extract_bits_be(data.as_slice(), start, len)
    };
    let raw_value = if sig.signed {
        sign_extend(base, sig.bit_length)
    } else {
        base
    };
    Some(
        ParsedSignal {
            name: clone_bytes(&sig.name),
            raw_value,
            factor: sig.factor,
            offset: sig.offset,
            unit: clone_bytes(&sig.unit),
            min: sig.min,
            max: sig.max,
            source_dbc: clone_bytes(source),
        },
    )
}

/// Decodes every fitting signal of a definition list, in order, and counts
/// the signals whose windows do not fit.
pub fn decode_signals(sigs: &Vec<SignalDef>, data: &Vec<u8>, source: &Vec<u8>) -> (r: (
    Vec<ParsedSignal>,
    usize,
))
    ensures
        r.0.deep_view() == spec_decode_signals(sigs.deep_view(), data@, source@),
        r.1 == crate::parser::sat_add(0, spec_failed_signals(sigs.deep_view(), data@) as int),
{
    let ghost all = sigs.deep_view();
    proof {
        assert(all.skip(0) =~= all);
    }
    let mut out: Vec<ParsedSignal> = Vec::new();
    let mut failures: usize = 0;
    let mut i: usize = 0;
    while i < sigs.len()
        invariant
            i <= sigs@.len(),
            all == sigs.deep_view(),
            all.len() == sigs@.len(),
            out.deep_view() + spec_decode_signals(all.skip(i as int), data@, source@)
                == spec_decode_signals(all, data@, source@),
            crate::parser::sat_add(
                failures as int,
                spec_failed_signals(all.skip(i as int), data@) as int,
            ) == crate::parser::sat_add(0, spec_failed_signals(all, data@) as int),
        decreases sigs@.len() - i,
    {
        proof {
            assert(all.skip(i as int).drop_first() =~= all.skip(i + 1));
            assert(all.skip(i as int)[0] == all[i as int]);
        }
        let ghost deep_before = out.deep_view();
        let ghost f_before = failures as int;
        match decode_signal(&sigs[i], data, source) {
            Some(p) => {
                out.push(p);
                proof {
                    assert(out.deep_view() =~= deep_before + seq![p.deep_view()]);
                    assert(out.deep_view() + spec_decode_signals(all.skip(i + 1), data@, source@)
                        =~= deep_before + (seq![p.deep_view()] + spec_decode_signals(
                        all.skip(i + 1),
                        data@,
                        source@,
                    )));
                }
            },
            None => {
                failures = crate::parser::usize_sat_add(failures, 1);
                proof {
                    crate::parser::lemma_sat_add_assoc(
                        f_before,
                        1,
                        spec_failed_signals(all.skip(i + 1), data@) as int,
                    );
                }
            },
        }
        i = i + 1;
    }
    proof {
        assert(all.skip(all.len() as int) =~= Seq::<SpecSignal>::empty());
    }
    (out, failures)
}

// ---------------------------------------------------------------------------
// The dictionary manager.
// ---------------------------------------------------------------------------

/// Relies on num_cpus::get: the documentation promises it always returns at
/// least 1.
pub assume_specification[ num_cpus::get ]() -> (r: usize)
    ensures
        r >= 1,
;

/// Configuration of the dictionary manager.
#[derive(Clone, Copy, Debug, PartialEq, Eq)]
pub struct DbcManagerConfig {
    /// How many dictionaries the cache may hold.
    pub max_cached_files: usize,
    /// Age in seconds after which an unused entry may be dropped.
    pub cache_expire_seconds: u64,
    /// Whether reloads on a newer modification time are wanted.
    pub auto_reload: bool,
    /// Seconds between reload checks.
    pub reload_check_interval: u64,
    /// Priority given to a load that names none.
    pub default_priority: i32,
    /// Whether a directory load may run file loads in parallel.
    pub parallel_loading: bool,
    /// How many loads may run at once.
    pub max_load_threads: usize,
}

impl Default for DbcManagerConfig {
    /// The default configuration: a 50-entry cache expiring after an hour,
    /// checked every minute, priority 0, parallel loading on as many
    /// threads as there are processors, capped at 8.
    fn default() -> (r: DbcManagerConfig)
        ensures
            r.max_cached_files == 50,
            r.cache_expire_seconds == 3600,
            r.auto_reload,
            r.reload_check_interval == 60,
            r.default_priority == 0,
            r.parallel_loading,
            1 <= r.max_load_threads <= 8,
    {
        let cpus = num_cpus::get();
        let threads = if cpus < 8 {
            cpus
        } else {
            8
        };
        DbcManagerConfig {
            max_cached_files: 50,
            cache_expire_seconds: 3600,
            auto_reload: true,
            reload_check_interval: 60,
            default_priority: 0,
            parallel_loading: true,
            max_load_threads: threads,
        }
    }
}

/// Counters the manager keeps over loads and decodes.
#[derive(Clone, Copy, Debug, PartialEq, Eq)]
pub struct DbcParsingStats {
    /// Dictionaries currently loaded.
    pub loaded_dbc_files: usize,
    /// Message definitions over all loaded dictionaries.
    pub total_messages: usize,
    /// Signal definitions over all loaded dictionaries.
    pub total_signals: usize,
    /// Frames handed to the resolver.
    pub parsed_frames: usize,
    /// Frames resolved to a message.
    pub successful_messages: usize,
    /// Frames no enabled dictionary knew.
    pub unknown_messages: usize,
    /// Dictionary texts that failed to parse.
    pub parse_errors: usize,
    /// Signal windows that did not fit their frame data.
    pub signal_parse_failures: usize,
}

impl DbcParsingStats {
    /// All counters zero.
    pub open spec fn spec_zero() -> DbcParsingStats {
        DbcParsingStats {
            loaded_dbc_files: 0,
            total_messages: 0,
            total_signals: 0,
            parsed_frames: 0,
            successful_messages: 0,
            unknown_messages: 0,
            parse_errors: 0,
            signal_parse_failures: 0,
        }
    }

    /// Fresh counters, all zero.
    pub fn zero() -> (r: DbcParsingStats)
        ensures
            r == DbcParsingStats::spec_zero(),
    {
        DbcParsingStats {
            loaded_dbc_files: 0,
            total_messages: 0,
            total_signals: 0,
            parsed_frames: 0,
            successful_messages: 0,
            unknown_messages: 0,
            parse_errors: 0,
            signal_parse_failures: 0,
        }
    }
}

/// What the manager remembers about one loaded dictionary file.
#[derive(Clone, Debug)]
pub struct DbcMetadata {
    /// Path of the source file.
    pub file_path: Vec<u8>,
    /// Modification time of the file when it was loaded.
    pub modified_time: u64,
    /// When the load happened.
    pub loaded_time: u64,
    /// Size of the source file.
    pub file_size: u64,
    /// Version text of the dictionary, where one was recorded.
    pub version: Option<Vec<u8>>,
    /// Message definitions in the dictionary.
    pub message_count: usize,
    /// Signal definitions in the dictionary.
    pub signal_count: usize,
    /// Whether the dictionary takes part in lookups.
    pub enabled: bool,
    /// Lookup priority; larger wins.
    pub priority: i32,
}

impl DbcMetadata {
    /// Copies the metadata.
    pub fn duplicate(&self) -> (r: DbcMetadata)
        ensures
            r.file_path@ == self.file_path@,
            r.modified_time == self.modified_time,
            r.loaded_time == self.loaded_time,
            r.file_size == self.file_size,
            r.message_count == self.message_count,
            r.signal_count == self.signal_count,
            r.enabled == self.enabled,
            r.priority == self.priority,
            match (r.version, self.version) {
                (Some(a), Some(b)) => a@ == b@,
                (None, None) => true,
                _ => false,
            },
    {
        DbcMetadata {
            file_path: clone_bytes(&self.file_path),
            modified_time: self.modified_time,
            loaded_time: self.loaded_time,
            file_size: self.file_size,
            version: match &self.version {
                Some(v) => Some(clone_bytes(v)),
                None => None,
            },
            message_count: self.message_count,
            signal_count: self.signal_count,
            enabled: self.enabled,
            priority: self.priority,
        }
    }
}

/// One loaded dictionary with its bookkeeping.
#[derive(Clone, Debug)]
pub struct DbcEntry {
    /// The file's metadata at load time.
    pub metadata: DbcMetadata,
    /// The parsed dictionary.
    pub dictionary: Dictionary,
    /// When the entry was last used, seconds.
    pub last_access: u64,
    /// How many decodes hold the entry right now.
    pub use_count: usize,
}

/// The first message of a list that carries the given identifier.
pub open spec fn spec_msg_index(msgs: Seq<MessageDef>, id: u32) -> Option<int>
    decreases msgs.len(),
{
    if msgs.len() == 0 {
        None
    } else if msgs[0].id == id {
        Some(0)
    } else {
        match spec_msg_index(msgs.drop_first(), id) {
            Some(k) => Some(k + 1),
            None => None,
        }
    }
}

/// A found message index is in range and carries the identifier, and no
/// earlier message does.
pub proof fn lemma_msg_index_found(msgs: Seq<MessageDef>, id: u32, i: int)
    requires
        0 <= i <= msgs.len(),
        forall|j: int| 0 <= j < i ==> msgs[j].id != id,
        i == msgs.len() || msgs[i].id == id,
    ensures
        spec_msg_index(msgs, id) == if i == msgs.len() {
            Option::<int>::None
        } else {
            Option::<int>::Some(i)
        },
    decreases i,
{
    if i == 0 {
        if msgs.len() > 0 && msgs[0].id != id {
            lemma_msg_index_found(msgs.drop_first(), id, (msgs.len() - 1) as int);
        }
    } else {
        lemma_msg_index_found(msgs.drop_first(), id, i - 1);
    }
}

/// Finds the first message with the given identifier.
pub fn find_message(msgs: &Vec<MessageDef>, id: u32) -> (r: Option<usize>)
    ensures
        match r {
            Some(i) => spec_msg_index(msgs@, id) == Some(i as int) && i < msgs@.len()
                && msgs@[i as int].id == id,
            None => spec_msg_index(msgs@, id) is None,
        },
{
    let mut i: usize = 0;
    while i < msgs.len()
        invariant
            i <= msgs@.len(),
            forall|j: int| 0 <= j < i ==> msgs@[j].id != id,
        decreases msgs@.len() - i,
    {
        if msgs[i].id == id {
            proof {
                lemma_msg_index_found(msgs@, id, i as int);
            }
            return Some(i);
        }
        i = i + 1;
    }
    proof {
        lemma_msg_index_found(msgs@, id, msgs@.len() as int);
    }
    None
}

/// The entry chosen among the first `n` for the given identifier: the first
/// enabled entry of highest priority whose dictionary knows the identifier.
pub open spec fn spec_best_entry(entries: Seq<DbcEntry>, id: u32, n: int) -> Option<int>
    decreases n,
{
    if n <= 0 {
        None
    } else {
        let prev = spec_best_entry(entries, id, n - 1);
        let ok = entries[n - 1].metadata.enabled && spec_msg_index(
            entries[n - 1].dictionary.messages@,
            id,
        ) is Some;
        if !ok {
            prev
        } else {
            match prev {
                None => Some(n - 1),
                Some(p) => if entries[n - 1].metadata.priority > entries[p].metadata.priority {
                    Some(n - 1)
                } else {
                    Some(p)
                },
            }
        }
    }
}

/// The first entry whose path equals the given one.
pub open spec fn spec_find_path(entries: Seq<DbcEntry>, path: Seq<u8>) -> Option<int>
    decreases entries.len(),
{
    if entries.len() == 0 {
        None
    } else if entries[0].metadata.file_path@ == path {
        Some(0)
    } else {
        match spec_find_path(entries.drop_first(), path) {
            Some(k) => Some(k + 1),
            None => None,
        }
    }
}

/// A found path index is in range and matches, and no earlier entry does.
pub proof fn lemma_find_path_found(entries: Seq<DbcEntry>, path: Seq<u8>, i: int)
    requires
        0 <= i <= entries.len(),
        forall|j: int| 0 <= j < i ==> entries[j].metadata.file_path@ != path,
        i == entries.len() || entries[i].metadata.file_path@ == path,
    ensures
        spec_find_path(entries, path) == if i == entries.len() {
            Option::<int>::None
        } else {
            Option::<int>::Some(i)
        },
    decreases i,
{
    if i == 0 {
        if entries.len() > 0 && entries[0].metadata.file_path@ != path {
            lemma_find_path_found(entries.drop_first(), path, (entries.len() - 1) as int);
        }
    } else {
        lemma_find_path_found(entries.drop_first(), path, i - 1);
    }
}

/// Whether two byte vectors hold the same bytes.
pub fn bytes_eq(a: &Vec<u8>, b: &Vec<u8>) -> (r: bool)
    ensures
        r == (a@ == b@),
{
    if a.len() != b.len() {
        proof {
            assert(a@ != b@);
        }
        return false;
    }
    let mut i: usize = 0;
    while i < a.len()
        invariant
            i <= a@.len(),
            a@.len() == b@.len(),
            forall|j: int| 0 <= j < i ==> a@[j] == b@[j],
        decreases a@.len() - i,
    {
        if a[i] != b[i] {
            proof {
                assert(a@ != b@);
            }
            return false;
        }
        i = i + 1;
    }
    proof {
        assert(a@ =~= b@);
    }
    true
}

/// Signal definitions over all messages of a dictionary, saturating.
pub open spec fn spec_dict_signal_count(msgs: Seq<MessageDef>) -> nat
    decreases msgs.len(),
{
    if msgs.len() == 0 {
        0
    } else {
        msgs[0].signals@.len() + spec_dict_signal_count(msgs.drop_first())
    }
}

/// Message definitions over all loaded entries.
pub open spec fn spec_entries_messages(entries: Seq<DbcEntry>) -> nat
    decreases entries.len(),
{
    if entries.len() == 0 {
        0
    } else {
        entries[0].metadata.message_count as nat + spec_entries_messages(entries.drop_first())
    }
}

/// Signal definitions over all loaded entries.
pub open spec fn spec_entries_signals(entries: Seq<DbcEntry>) -> nat
    decreases entries.len(),
{
    if entries.len() == 0 {
        0
    } else {
        entries[0].metadata.signal_count as nat + spec_entries_signals(entries.drop_first())
    }
}

/// The dictionary manager: loaded dictionaries in load order, with counters.
pub struct DbcManager {
    /// Configuration.
    pub config: DbcManagerConfig,
    /// The loaded dictionaries.
    pub entries: Vec<DbcEntry>,
    /// Counters over loads and decodes.
    pub stats: DbcParsingStats,
}

impl DbcManager {
    /// A manager with no dictionaries loaded.
    pub fn new(config: DbcManagerConfig) -> (r: DbcManager)
        ensures
            r.config == config,
            r.entries@.len() == 0,
            r.stats == DbcParsingStats::spec_zero(),
    {
        DbcManager { config, entries: Vec::new(), stats: DbcParsingStats::zero() }
    }

    /// The counters gathered so far.
    pub fn get_stats(&self) -> (r: DbcParsingStats)
        ensures
            r == self.stats,
    {
        self.stats
    }

    /// Clears all counters.
    pub fn reset_stats(&mut self)
        ensures
            final(self).stats == DbcParsingStats::spec_zero(),
            final(self).entries@ == old(self).entries@,
            final(self).config == old(self).config,
    {
        self.stats = DbcParsingStats::zero();
    }

    /// Counts signal definitions of a dictionary, saturating.
    fn count_signals(msgs: &Vec<MessageDef>) -> (r: usize)
        ensures
            r == crate::parser::sat_add(0, spec_dict_signal_count(msgs@) as int),
    {
        let ghost all = msgs@;
        proof {
            assert(all.skip(0) =~= all);
        }
        let mut r: usize = 0;
        let mut i: usize = 0;
        while i < msgs.len()
            invariant
                i <= all.len(),
                msgs@ == all,
                crate::parser::sat_add(r as int, spec_dict_signal_count(all.skip(i as int)) as int)
                    == crate::parser::sat_add(0, spec_dict_signal_count(all) as int),
            decreases all.len() - i,
        {
            proof {
                assert(all.skip(i as int).drop_first() =~= all.skip(i + 1));
                assert(all.skip(i as int)[0] == all[i as int]);
            }
            let ghost r_before = r as int;
            r = crate::parser::usize_sat_add(r, msgs[i].signals.len());
            proof {
                crate::parser::lemma_sat_add_assoc(
                    r_before,
                    all[i as int].signals@.len() as int,
                    spec_dict_signal_count(all.skip(i + 1)) as int,
                );
            }
            i = i + 1;
        }
        proof {
            assert(all.skip(all.len() as int) =~= Seq::<MessageDef>::empty());
        }
        r
    }

    /// Recomputes the load counters from the entries.
    fn refresh_load_stats(&mut self)
        ensures
            final(self).entries@ == old(self).entries@,
            final(self).config == old(self).config,
            final(self).stats.loaded_dbc_files == old(self).entries@.len(),
            final(self).stats.total_messages == crate::parser::sat_add(
                0,
                spec_entries_messages(old(self).entries@) as int,
            ),
            final(self).stats.total_signals == crate::parser::sat_add(
                0,
                spec_entries_signals(old(self).entries@) as int,
            ),
            final(self).stats.parsed_frames == old(self).stats.parsed_frames,
            final(self).stats.successful_messages == old(self).stats.successful_messages,
            final(self).stats.unknown_messages == old(self).stats.unknown_messages,
            final(self).stats.parse_errors == old(self).stats.parse_errors,
            final(self).stats.signal_parse_failures == old(self).stats.signal_parse_failures,
    {
        let ghost all = self.entries@;
        proof {
            assert(all.skip(0) =~= all);
        }
        let mut msgs: usize = 0;
        let mut sigs: usize = 0;
        let mut i: usize = 0;
        while i < self.entries.len()
            invariant
                i <= all.len(),
                self.entries@ == all,
                self.config == old(self).config,
                self.stats == old(self).stats,
                crate::parser::sat_add(msgs as int, spec_entries_messages(all.skip(i as int)) as int)
                    == crate::parser::sat_add(0, spec_entries_messages(all) as int),
                crate::parser::sat_add(sigs as int, spec_entries_signals(all.skip(i as int)) as int)
                    == crate::parser::sat_add(0, spec_entries_signals(all) as int),
            decreases all.len() - i,
        {
            proof {
                assert(all.skip(i as int).drop_first() =~= all.skip(i + 1));
                assert(all.skip(i as int)[0] == all[i as int]);
            }
            let ghost m_before = msgs as int;
            let ghost s_before = sigs as int;
            msgs = crate::parser::usize_sat_add(msgs, self.entries[i].metadata.message_count);
            sigs = crate::parser::usize_sat_add(sigs, self.entries[i].metadata.signal_count);
            proof {
                crate::parser::lemma_sat_add_assoc(
                    m_before,
                    all[i as int].metadata.message_count as int,
                    spec_entries_messages(all.skip(i + 1)) as int,
                );
                crate::parser::lemma_sat_add_assoc(
                    s_before,
                    all[i as int].metadata.signal_count as int,
                    spec_entries_signals(all.skip(i + 1)) as int,
                );
            }
            i = i + 1;
        }
        proof {
            assert(all.skip(all.len() as int) =~= Seq::<DbcEntry>::empty());
        }
        self.stats.loaded_dbc_files = self.entries.len();
        self.stats.total_messages = msgs;
        self.stats.total_signals = sigs;
    }

    /// Finds the entry loaded from the given path.
    fn find_entry(&self, path: &Vec<u8>) -> (r: Option<usize>)
        ensures
            match r {
                Some(i) => spec_find_path(self.entries@, path@) == Some(i as int) && i
                    < self.entries@.len() && self.entries@[i as int].metadata.file_path@ == path@,
                None => spec_find_path(self.entries@, path@) is None,
            },
    {
        let mut i: usize = 0;
        while i < self.entries.len()
            invariant
                i <= self.entries@.len(),
                forall|j: int| 0 <= j < i ==> self.entries@[j].metadata.file_path@ != path@,
            decreases self.entries@.len() - i,
        {
            if bytes_eq(&self.entries[i].metadata.file_path, path) {
                proof {
                    lemma_find_path_found(self.entries@, path@, i as int);
                }
                return Some(i);
            }
            i = i + 1;
        }
        proof {
            lemma_find_path_found(self.entries@, path@, self.entries@.len() as int);
        }
        None
    }

    /// Loads dictionary text read from a file. A path already loaded with
    /// an unchanged or newer modification time is left alone; otherwise the
    /// text is parsed and the entry inserted or replaced, and the load
    /// counters are refreshed. Returns whether anything was loaded.
    pub fn load_dbc_content(
        &mut self,
        path: &Vec<u8>,
        content: &[u8],
        modified_time: u64,
        loaded_time: u64,
        file_size: u64,
        priority: i32,
    ) -> (r: Result<bool, ParseError>)
        requires
            content@.len() < usize::MAX,
        ensures
            final(self).config == old(self).config,
            ({
                let found = spec_find_path(old(self).entries@, path@);
                let parsed = spec_messages_from(content@, 0);
                if found matches Some(i) && old(self).entries@[i].metadata.modified_time
                    >= modified_time {
                    r == Result::<bool, ParseError>::Ok(false) && final(self).entries@ == old(self).entries@ && final(self).stats == old(self).stats
                } else if parsed.len() == 0 {
                    r == Result::<bool, ParseError>::Err(ParseError::DictionaryParseFailed)
                        && final(self).entries@ == old(self).entries@ && final(self).stats == old(self).stats
                } else {
                    r == Result::<bool, ParseError>::Ok(true) && ({
                        let k = match found {
                            Some(i) => i,
                            None => old(self).entries@.len() as int,
                        };
                        &&& final(self).entries@.len() == (match found {
                            Some(_) => old(self).entries@.len() as int,
                            None => old(self).entries@.len() + 1int,
                        })
                        &&& forall|j: int|
                            0 <= j < final(self).entries@.len() && j != k ==> final(self).entries@[j] == old(self).entries@[j]
                        &&& final(self).entries@[k].metadata.file_path@ == path@
                        &&& final(self).entries@[k].metadata.modified_time == modified_time
                        &&& final(self).entries@[k].metadata.loaded_time == loaded_time
                        &&& final(self).entries@[k].metadata.file_size == file_size
                        &&& final(self).entries@[k].metadata.priority == priority
                        &&& final(self).entries@[k].metadata.enabled
                        &&& final(self).entries@[k].dictionary.messages.deep_view() == parsed
                        &&& final(self).entries@[k].metadata.message_count == parsed.len()
                        &&& final(self).stats.loaded_dbc_files == final(self).entries@.len()
                    })
                }
            }),
    {
        let found = self.find_entry(path);
        if let Some(i) = found {
            if self.entries[i].metadata.modified_time >= modified_time {
                return Ok(false);
            }
        }
        let dictionary = match parse_dictionary(content) {
            Ok(d) => d,
            Err(e) => {
                return Err(e);
            },
        };
        let signal_count = Self::count_signals(&dictionary.messages);
        let message_count = dictionary.messages.len();
        let metadata = DbcMetadata {
            file_path: clone_bytes(path),
            modified_time,
            loaded_time,
            file_size,
            version: None,
            message_count,
            signal_count,
            enabled: true,
            priority,
        };
        proof {
            assert(dictionary.messages.deep_view().len() == dictionary.messages@.len());
        }
        let entry = DbcEntry { metadata, dictionary, last_access: loaded_time, use_count: 0 };
        match found {
            Some(i) => {
                let ghost before = self.entries@;
                let _old_entry = self.entries.remove(i);
                self.entries.insert(i, entry);
                proof {
                    assert(self.entries@.len() == before.len());
                    assert(self.entries@[i as int] == entry);
                    assert forall|j: int|
                        0 <= j < self.entries@.len() && j != i implies self.entries@[j]
                        == before[j] by {
                        if j < i {
                            assert(self.entries@[j] == before.remove(i as int)[j]);
                        } else {
                            assert(self.entries@[j] == before.remove(i as int)[j - 1]);
                            assert(before.remove(i as int)[j - 1] == before[j]);
                        }
                    }
                }
            },
            None => {
                self.entries.push(entry);
                proof {
                    assert(self.entries@[self.entries@.len() - 1] == entry);
                }
            },
        }
        self.refresh_load_stats();
        Ok(true)
    }

    /// Toggles a loaded dictionary's participation in lookups; unknown
    /// paths are a configuration error.
    pub fn set_dbc_enabled(&mut self, path: &Vec<u8>, enabled: bool) -> (r: Result<(), ParseError>)
        ensures
            final(self).config == old(self).config,
            final(self).stats == old(self).stats,
            match spec_find_path(old(self).entries@, path@) {
                Some(i) => r is Ok && final(self).entries@.len() == old(self).entries@.len()
                    && final(self).entries@[i].metadata.enabled == enabled && final(self).entries@[i].metadata.file_path@ == path@ && forall|j: int|
                    0 <= j < old(self).entries@.len() && j != i ==> final(self).entries@[j] == old(self).entries@[j],
                None => r == Result::<(), ParseError>::Err(ParseError::ConfigError) && final(self).entries@ == old(self).entries@,
            },
    {
        match self.find_entry(path) {
            Some(i) => {
                let mut entry = self.entries.remove(i);
                entry.metadata.enabled = enabled;
                self.entries.insert(i, entry);
                Ok(())
            },
            None => Err(ParseError::ConfigError),
        }
    }

    /// Removes a loaded dictionary and refreshes the load counters;
    /// unknown paths are a configuration error.
    pub fn unload(&mut self, path: &Vec<u8>) -> (r: Result<(), ParseError>)
        ensures
            final(self).config == old(self).config,
            match spec_find_path(old(self).entries@, path@) {
                Some(i) => r is Ok && final(self).entries@ == old(self).entries@.remove(i) && final(self).stats.loaded_dbc_files == final(self).entries@.len(),
                None => r == Result::<(), ParseError>::Err(ParseError::ConfigError) && final(self).entries@ == old(self).entries@ && final(self).stats == old(self).stats,
            },
    {
        match self.find_entry(path) {
            Some(i) => {
                let _removed = self.entries.remove(i);
                self.refresh_load_stats();
                Ok(())
            },
            None => Err(ParseError::ConfigError),
        }
    }

    /// The metadata of every loaded dictionary, in load order.
    pub fn get_loaded_dbc_files(&self) -> (r: Vec<DbcMetadata>)
        ensures
            r@.len() == self.entries@.len(),
            forall|j: int|
                0 <= j < r@.len() ==> (r@[j].file_path@
                    == self.entries@[j].metadata.file_path@ && r@[j].enabled
                    == self.entries@[j].metadata.enabled && r@[j].priority
                    == self.entries@[j].metadata.priority && r@[j].modified_time
                    == self.entries@[j].metadata.modified_time),
    {
        let mut r: Vec<DbcMetadata> = Vec::new();
        let mut i: usize = 0;
        while i < self.entries.len()
            invariant
                i <= self.entries@.len(),
                r@.len() == i,
                forall|j: int|
                    0 <= j < i ==> (r@[j].file_path@ == self.entries@[j].metadata.file_path@
                        && r@[j].enabled == self.entries@[j].metadata.enabled && r@[j].priority
                        == self.entries@[j].metadata.priority && r@[j].modified_time
                        == self.entries@[j].metadata.modified_time),
            decreases self.entries@.len() - i,
        {
            r.push(self.entries[i].metadata.duplicate());
            i = i + 1;
        }
        r
    }

    /// Whether an entry stays through a cleanup at time `now`: it was used
    /// recently enough or a decode still holds it.
    pub open spec fn spec_entry_kept(e: DbcEntry, expire: u64, now: u64) -> bool {
        now - e.last_access < expire || e.use_count > 0
    }

    /// The entries that survive a cleanup at time `now`, in order.
    pub open spec fn spec_kept_entries(entries: Seq<DbcEntry>, expire: u64, now: u64) -> Seq<
        DbcEntry,
    >
        decreases entries.len(),
    {
        if entries.len() == 0 {
            Seq::empty()
        } else if Self::spec_entry_kept(entries[0], expire, now) {
            seq![entries[0]] + Self::spec_kept_entries(entries.drop_first(), expire, now)
        } else {
            Self::spec_kept_entries(entries.drop_first(), expire, now)
        }
    }

    /// Drops entries whose last use is older than the configured expiry and
    /// that no decode holds, then refreshes the load counters.
    pub fn cleanup_expired_cache(&mut self, now: u64)
        requires
            forall|j: int|
                0 <= j < old(self).entries@.len() ==> old(self).entries@[j].last_access <= now,
        ensures
            final(self).config == old(self).config,
            final(self).entries@ == Self::spec_kept_entries(
                old(self).entries@,
                old(self).config.cache_expire_seconds,
                now,
            ),
            final(self).stats.loaded_dbc_files == final(self).entries@.len(),
    {
        let ghost orig = self.entries@;
        let expire = self.config.cache_expire_seconds;
        let mut i: usize = 0;
        proof {
            assert(self.entries@.subrange(0, self.entries@.len() as int) =~= orig);
            assert(self.entries@.subrange(0, 0) =~= Seq::<DbcEntry>::empty());
            assert(Seq::<DbcEntry>::empty() + Self::spec_kept_entries(orig, expire, now)
                =~= Self::spec_kept_entries(orig, expire, now));
        }
        while i < self.entries.len()
            invariant
                i <= self.entries@.len(),
                self.config == old(self).config,
                self.stats == old(self).stats,
                expire == old(self).config.cache_expire_seconds,
                forall|j: int|
                    i <= j < self.entries@.len() ==> self.entries@[j].last_access <= now,
                Self::spec_kept_entries(orig, expire, now) == self.entries@.subrange(0, i as int)
                    + Self::spec_kept_entries(
                    self.entries@.subrange(i as int, self.entries@.len() as int),
                    expire,
                    now,
                ),
            decreases self.entries@.len() - i,
        {
            let ghost before = self.entries@;
            let ghost rest = before.subrange(i as int, before.len() as int);
            proof {
                assert(rest[0] == before[i as int]);
                assert(rest.drop_first() =~= before.subrange(i + 1, before.len() as int));
            }
            let keep = now - self.entries[i].last_access < expire || self.entries[i].use_count > 0;
            if keep {
                proof {
                    assert(Self::spec_kept_entries(rest, expire, now) == seq![before[i as int]]
                        + Self::spec_kept_entries(rest.drop_first(), expire, now));
                    assert(before.subrange(0, i as int) + seq![before[i as int]] =~= before.subrange(
                        0,
                        i + 1,
                    ));
                    assert(before.subrange(0, i + 1) + Self::spec_kept_entries(
                        before.subrange(i + 1, before.len() as int),
                        expire,
                        now,
                    ) =~= before.subrange(0, i as int) + (seq![before[i as int]]
                        + Self::spec_kept_entries(rest.drop_first(), expire, now)));
                }
                i = i + 1;
            } else {
                let _removed = self.entries.remove(i);
                proof {
                    assert(Self::spec_kept_entries(rest, expire, now) == Self::spec_kept_entries(
                        rest.drop_first(),
                        expire,
                        now,
                    ));
                    assert(self.entries@ =~= before.remove(i as int));
                    assert(self.entries@.subrange(0, i as int) =~= before.subrange(0, i as int));
                    assert(self.entries@.subrange(i as int, self.entries@.len() as int)
                        =~= before.subrange(i + 1, before.len() as int));
                    assert(forall|j: int|
                        i <= j < self.entries@.len() ==> self.entries@[j] == before[j + 1]);
                }
            }
        }
        proof {
            assert(self.entries@.subrange(i as int, self.entries@.len() as int) =~= Seq::<
                DbcEntry,
            >::empty());
            assert(Self::spec_kept_entries(
                Seq::<DbcEntry>::empty(),
                expire,
                now,
            ) =~= Seq::<DbcEntry>::empty());
            assert(self.entries@.subrange(0, i as int) =~= self.entries@);
            assert(self.entries@ + Seq::<DbcEntry>::empty() =~= self.entries@);
        }
        self.refresh_load_stats();
    }

    /// Finds the enabled entry of highest priority whose dictionary knows
    /// the identifier; among equal priorities the first loaded wins.
    fn best_entry(&self, id: u32) -> (r: Option<usize>)
        ensures
            match r {
                Some(i) => spec_best_entry(self.entries@, id, self.entries@.len() as int) == Some(
                    i as int,
                ) && i < self.entries@.len(),
                None => spec_best_entry(self.entries@, id, self.entries@.len() as int) is None,
            },
    {
        let mut best: Option<usize> = None;
        let mut i: usize = 0;
        while i < self.entries.len()
            invariant
                i <= self.entries@.len(),
                match best {
                    Some(b) => spec_best_entry(self.entries@, id, i as int) == Some(b as int) && b
                        < self.entries@.len(),
                    None => spec_best_entry(self.entries@, id, i as int) is None,
                },
            decreases self.entries@.len() - i,
        {
            let ok = self.entries[i].metadata.enabled && find_message(
                &self.entries[i].dictionary.messages,
                id,
            ).is_some();
            if ok {
                best = match best {
                    None => Some(i),
                    Some(p) => {
                        if self.entries[i].metadata.priority > self.entries[p].metadata.priority {
                            Some(i)
                        } else {
                            Some(p)
                        }
                    },
                };
            }
            i = i + 1;
        }
        best
    }

    /// Resolves a frame against the loaded dictionaries: the enabled entry
    /// of highest priority that knows the frame's identifier decodes it;
    /// without one the frame is counted unknown. Signal windows that do not
    /// fit the frame data are skipped and counted.
    pub fn parse_can_frame(&mut self, frame: &CanFrame) -> (r: Result<
        Option<ParsedMessage>,
        ParseError,
    >)
        ensures
            final(self).config == old(self).config,
            final(self).entries@ == old(self).entries@,
            r is Ok,
            final(self).stats.parsed_frames == crate::parser::sat_add(
                old(self).stats.parsed_frames as int,
                1,
            ),
            ({
                let found = spec_best_entry(
                    old(self).entries@,
                    frame.can_id,
                    old(self).entries@.len() as int,
                );
                match found {
                    None => (r matches Ok(m) && m is None) && final(self).stats.unknown_messages
                        == crate::parser::sat_add(old(self).stats.unknown_messages as int, 1)
                        && final(self).stats.successful_messages == old(self).stats.successful_messages && final(self).stats.signal_parse_failures == old(self).stats.signal_parse_failures,
                    Some(ei) => ({
                        let entry = old(self).entries@[ei];
                        let path = entry.metadata.file_path@;
                        match spec_msg_index(entry.dictionary.messages@, frame.can_id) {
                            None => false,
                            Some(mi) => {
                                let msg = entry.dictionary.messages@[mi];
                                &&& r matches Ok(m)
                                &&& m matches Some(pm)
                                &&& pm.message_id == frame.can_id
                                &&& pm.name@ == msg.name@
                                &&& pm.dlc == frame.dlc
                                &&& pm.sender@ == msg.sender@
                                &&& pm.parsed_timestamp == frame.timestamp
                                &&& pm.source_dbc@ == path
                                &&& pm.signals.deep_view() == spec_decode_signals(
                                    msg.signals.deep_view(),
                                    frame.data@,
                                    path,
                                )
                                &&& final(self).stats.successful_messages
                                    == crate::parser::sat_add(
                                    old(self).stats.successful_messages as int,
                                    1,
                                )
                                &&& final(self).stats.unknown_messages == old(self).stats.unknown_messages
                                &&& final(self).stats.signal_parse_failures
                                    == crate::parser::sat_add(
                                    old(self).stats.signal_parse_failures as int,
                                    spec_failed_signals(msg.signals.deep_view(), frame.data@) as int,
                                )
                            },
                        }
                    }),
                }
            }),
    {
        match self.best_entry(frame.can_id) {
            None => {
                self.stats.parsed_frames = crate::parser::usize_sat_add(
                    self.stats.parsed_frames,
                    1,
                );
                self.stats.unknown_messages = crate::parser::usize_sat_add(
                    self.stats.unknown_messages,
                    1,
                );
                Ok(None)
            },
            Some(ei) => {
                let mi = match find_message(&self.entries[ei].dictionary.messages, frame.can_id) {
                    Some(m) => m,
                    None => {
                        proof {
                            lemma_best_entry_has_message(
                                self.entries@,
                                frame.can_id,
                                self.entries@.len() as int,
                                ei as int,
                            );
                            assert(false);
                        }
                        return Ok(None);
                    },
                };
                let entry = &self.entries[ei];
                let msg = &entry.dictionary.messages[mi];
                let (signals, failures) = decode_signals(
                    &msg.signals,
                    &frame.data,
                    &entry.metadata.file_path,
                );
                let pm = ParsedMessage {
                    message_id: frame.can_id,
                    name: clone_bytes(&msg.name),
                    dlc: frame.dlc,
                    sender: clone_bytes(&msg.sender),
                    signals,
                    parsed_timestamp: frame.timestamp,
                    source_dbc: clone_bytes(&entry.metadata.file_path),
                };
                self.stats.parsed_frames = crate::parser::usize_sat_add(
                    self.stats.parsed_frames,
                    1,
                );
                self.stats.successful_messages = crate::parser::usize_sat_add(
                    self.stats.successful_messages,
                    1,
                );
                self.stats.signal_parse_failures = crate::parser::usize_sat_add(
                    self.stats.signal_parse_failures,
                    failures,
                );
                Ok(Some(pm))
            },
        }
    }
}

/// A chosen entry's dictionary knows the identifier.
pub proof fn lemma_best_entry_has_message(entries: Seq<DbcEntry>, id: u32, n: int, ei: int)
    requires
        0 <= n <= entries.len(),
        spec_best_entry(entries, id, n) == Some(ei),
    ensures
        0 <= ei < n,
        spec_msg_index(entries[ei].dictionary.messages@, id) is Some,
        entries[ei].metadata.enabled,
    decreases n,
{
    if n > 0 {
        let prev = spec_best_entry(entries, id, n - 1);
        let ok = entries[n - 1].metadata.enabled && spec_msg_index(
            entries[n - 1].dictionary.messages@,
            id,
        ) is Some;
        if ei == n - 1 && ok {
        } else {
            lemma_best_entry_has_message(entries, id, n - 1, ei);
        }
    }
}

/// One resolved frame: the message definition it matched and the decoded
/// signals.
#[derive(Clone, Debug)]
pub struct ParsedMessage {
    /// The frame's CAN identifier.
    pub message_id: u32,
    /// Name of the matched message definition.
    pub name: Vec<u8>,
    /// The frame's data-length code.
    pub dlc: u8,
    /// Sending node named by the dictionary, empty where absent.
    pub sender: Vec<u8>,
    /// The decoded signals, in definition order.
    pub signals: Vec<ParsedSignal>,
    /// The frame's timestamp.
    pub parsed_timestamp: u64,
    /// Path of the dictionary that matched.
    pub source_dbc: Vec<u8>,
}

} // verus!
