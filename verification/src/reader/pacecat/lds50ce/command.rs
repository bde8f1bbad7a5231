//! Commands to the LDS-50C-E.
//!
//! The sensor sends nothing until it has been told to. The host asks for the version (`LVERSH`),
//! gives the sensor half a second, and then asks it to start (`LSTARH`). A command is a header of
//! 8 bytes, a text padded to a multiple of 4 bytes, and a CRC over both.

use crate::reader::pacecat::lds50ce::frame::read_u32_le;
use vstd::prelude::*;

verus! {

use crate::reader::types::le32_at;
use vstd::string::StringSliceAdditionalSpecFns;

/// Signature of a command, "LH".
pub const CMD_SIGN: u16 = 0x484C;

/// Code of a query.
pub const CMD_QUERY: u16 = 0x0043;

/// Milliseconds between the first command and the second.
pub const INTER_CMD_DELAY_MS: u64 = 500;

/// Generator of the CRC.
pub const POLY: u32 = 0x04C1_1DB7;

/// The CRC register after one message bit: it shifts left, and takes in the generator where the
/// bit that leaves it differs from the message bit.
pub open spec fn crc_step(crc: u32, bit: bool) -> u32 {
    (crc << 1u32) ^ (if (crc & 0x8000_0000 != 0) != bit {
        0x04C1_1DB7u32
    } else {
        0u32
    })
}

/// Bit `k` of a word, counted from the most significant.
pub open spec fn word_bit(word: u32, k: u32) -> bool {
    (word >> ((31 - k) as u32)) & 1 == 1
}

/// The register after the first `n` bits of `word`.
pub open spec fn after_bits(crc: u32, word: u32, n: nat) -> u32
    decreases n,
{
    if n == 0 {
        crc
    } else {
        crc_step(after_bits(crc, word, (n - 1) as nat), word_bit(word, (n - 1) as u32))
    }
}

/// The CRC of a message of 32-bit words: the register starts with all ones and takes in each
/// word, most significant bit first.
pub open spec fn stm32_crc_of(words: Seq<u32>) -> u32
    decreases words.len(),
{
    if words.len() == 0 {
        0xFFFF_FFFF
    } else {
        after_bits(stm32_crc_of(words.drop_last()), words.last(), 32)
    }
}

/// The CRC-32 of the STM32 hardware unit: generator `0x04C11DB7`, initially all ones, not
/// reflected.
pub fn stm32_crc(words: &[u32]) -> (crc: u32)
    ensures
        crc == stm32_crc_of(words@),
{
    let mut crc: u32 = 0xFFFF_FFFF;
    let mut i: usize = 0;
    while i < words.len()
        invariant
            i <= words.len(),
            crc == stm32_crc_of(words@.take(i as int)),
        decreases words.len() - i,
    {
        let data: u32 = words[i];
        let ghost start = crc;
        let mut k: u32 = 0;
        while k < 32
            invariant
                k <= 32,
                crc == after_bits(start, data, k as nat),
            decreases 32 - k,
        {
            let ghost before = crc;
            if crc & 0x8000_0000 != 0 {
                crc = (crc << 1) ^ POLY;
            } else {
                crc = crc << 1;
            }
            if (data >> (31 - k)) & 1 == 1 {
                crc = crc ^ POLY;
            }
            proof {
                let bit = word_bit(data, k);
                assert(crc_step(before, bit) == {
                    let shifted = if before & 0x8000_0000 != 0 {
                        (before << 1u32) ^ 0x04C1_1DB7
                    } else {
                        before << 1u32
                    };
                    if bit {
                        shifted ^ 0x04C1_1DB7
                    } else {
                        shifted
                    }
                }) by (bit_vector);
            }
            k = k + 1;
        }
        proof {
            let so_far = words@.take(i + 1);
            assert(so_far.drop_last() =~= words@.take(i as int));
            assert(so_far.last() == data);
        }
        i = i + 1;
    }
    assert(words@.take(i as int) =~= words@);
    crc
}

/// The two bytes of a number, low byte first.
pub open spec fn le16_bytes(value: u16) -> Seq<u8> {
    seq![(value % 256) as u8, (value / 256) as u8]
}

/// The four bytes of a number, low byte first.
pub open spec fn le32_bytes(value: u32) -> Seq<u8> {
    seq![
        (value % 256) as u8,
        (value / 0x100 % 256) as u8,
        (value / 0x1_0000 % 256) as u8,
        (value / 0x100_0000) as u8,
    ]
}

/// The little-endian words of a byte sequence; what does not fill a word is left out.
pub open spec fn words_of(bytes: Seq<u8>) -> Seq<u32> {
    Seq::new(bytes.len() / 4, |k: int| le32_at(bytes, 4 * k))
}

/// The next multiple of 4.
pub open spec fn padded_len_of(len: int) -> int {
    (len + 3) / 4 * 4
}

/// A payload followed by zeros up to a multiple of 4 bytes.
pub open spec fn padded(payload: Seq<u8>) -> Seq<u8> {
    payload + Seq::new((padded_len_of(payload.len() as int) - payload.len()) as nat, |i: int| 0u8)
}

/// The part of a command that its CRC covers: signature, code, number, length, payload.
pub open spec fn checked_part(payload: Seq<u8>, sn: u16) -> Seq<u8> {
    le16_bytes(CMD_SIGN) + le16_bytes(CMD_QUERY) + le16_bytes(sn) + le16_bytes(
        (padded_len_of(payload.len() as int) % 0x1_0000) as u16,
    ) + padded(payload)
}

/// A whole command.
pub open spec fn command_of(payload: Seq<u8>, sn: u16) -> Seq<u8> {
    checked_part(payload, sn) + le32_bytes(stm32_crc_of(words_of(checked_part(payload, sn))))
}

/// Appends a 16-bit number, low byte first.
fn push_u16_le(buf: &mut Vec<u8>, value: u16)
    ensures
        final(buf)@ == old(buf)@ + le16_bytes(value),
{
    buf.push((value % 256) as u8);
    buf.push((value / 256) as u8);
    assert(buf@ =~= old(buf)@ + le16_bytes(value));
}

/// Appends a 32-bit number, low byte first.
fn push_u32_le(buf: &mut Vec<u8>, value: u32)
    ensures
        final(buf)@ == old(buf)@ + le32_bytes(value),
{
    buf.push((value % 256) as u8);
    buf.push((value / 0x100 % 256) as u8);
    buf.push((value / 0x1_0000 % 256) as u8);
    buf.push((value / 0x100_0000) as u8);
    assert(buf@ =~= old(buf)@ + le32_bytes(value));
}

/// Signature, code, number and length of a command, and its padded payload.
fn build_checked_part(payload: &[u8], sn: u16) -> (part: Vec<u8>)
    requires
        payload@.len() + 16 <= usize::MAX,
    ensures
        part@ == checked_part(payload@, sn),
{
    let padded_len: usize = (payload.len() + 3) / 4 * 4;
    let mut buf: Vec<u8> = Vec::new();
    push_u16_le(&mut buf, CMD_SIGN);
    push_u16_le(&mut buf, CMD_QUERY);
    push_u16_le(&mut buf, sn);
    push_u16_le(&mut buf, (padded_len % 0x1_0000) as u16);
    let ghost head = buf@;
    let mut i: usize = 0;
    while i < payload.len()
        invariant
            i <= payload.len(),
            buf@ == head + payload@.take(i as int),
        decreases payload.len() - i,
    {
        buf.push(payload[i]);
        i = i + 1;
        assert(buf@ =~= head + payload@.take(i as int));
    }
    assert(payload@.take(i as int) =~= payload@);
    while i < padded_len
        invariant
            payload@.len() <= i <= padded_len,
            buf@ =~= head + payload@ + Seq::new((i - payload@.len()) as nat, |k: int| 0u8),
        decreases padded_len - i,
    {
        buf.push(0);
        i = i + 1;
    }
    proof {
        let zeros = Seq::new((padded_len - payload@.len()) as nat, |k: int| 0u8);
        assert(head + payload@ + zeros =~= head + (payload@ + zeros));
        assert(head =~= le16_bytes(CMD_SIGN) + le16_bytes(CMD_QUERY) + le16_bytes(sn) + le16_bytes(
            (padded_len_of(payload@.len() as int) % 0x1_0000) as u16,
        ));
    }
    buf
}

/// The little-endian words of a byte sequence.
fn words_in(bytes: &[u8]) -> (words: Vec<u32>)
    ensures
        words@ == words_of(bytes@),
{
    let count: usize = bytes.len() / 4;
    let mut words: Vec<u32> = Vec::new();
    let mut k: usize = 0;
    while k < count
        invariant
            k <= count,
            count == bytes@.len() / 4,
            4 * count <= usize::MAX,
            words@.len() == k,
            forall|j: int| 0 <= j < k ==> words@[j] == le32_at(bytes@, 4 * j),
        decreases count - k,
    {
        words.push(read_u32_le(bytes, 4 * k));
        k = k + 1;
    }
    assert(words@ =~= words_of(bytes@));
    words
}

/// The command with the given text and number, ready to send. The length field is the low 16
/// bits of the padded length.
pub fn build_command(cmd: &str, sn: u16) -> (command: Vec<u8>)
    requires
        cmd.spec_bytes().len() + 16 <= usize::MAX,
    ensures
        command@ == command_of(cmd.spec_bytes(), sn),
{
    let mut buf: Vec<u8> = build_checked_part(cmd.as_bytes(), sn);
    let words: Vec<u32> = words_in(buf.as_slice());
    push_u32_le(&mut buf, stm32_crc(words.as_slice()));
    buf
}

/// One step of starting the sensor.
#[derive(Debug, Clone, PartialEq, Eq)]
pub enum StartStep {
    /// Send these bytes to this port. Where it must not fail, a failure ends the start.
    Send { port: u16, bytes: Vec<u8>, must_succeed: bool },
    /// Let the sensor work.
    Wait { millis: u64 },
}

/// The contents of a [`StartStep`].
pub enum StartStepView {
    Send { port: u16, bytes: Seq<u8>, must_succeed: bool },
    Wait { millis: u64 },
}

impl View for StartStep {
    type V = StartStepView;

    open spec fn view(&self) -> StartStepView {
        match *self {
            StartStep::Send { port, bytes, must_succeed } => StartStepView::Send {
                port,
                bytes: bytes@,
                must_succeed,
            },
            StartStep::Wait { millis } => StartStepView::Wait { millis },
        }
    }
}

/// The contents of several steps, in order.
pub open spec fn steps_view(steps: Seq<StartStep>) -> Seq<StartStepView> {
    Seq::new(steps.len(), |i: int| steps[i]@)
}

/// How the sensor is started: the version query to the command port and the port above it, half a
/// second, and the start command to both. Only the start command has to get through.
pub open spec fn start_sequence_of(command_port: u16) -> Seq<StartStepView> {
    let next = (command_port + 1) as u16;
    let vers = command_of("LVERSH".spec_bytes(), 1);
    let start = command_of("LSTARH".spec_bytes(), 2);
    seq![
        StartStepView::Send { port: command_port, bytes: vers, must_succeed: false },
        StartStepView::Send { port: next, bytes: vers, must_succeed: false },
        StartStepView::Wait { millis: INTER_CMD_DELAY_MS },
        StartStepView::Send { port: command_port, bytes: start, must_succeed: true },
        StartStepView::Send { port: next, bytes: start, must_succeed: true },
    ]
}

/// The steps that start a sensor with this command port. Some devices listen on the port above
/// it, so both are used.
pub fn start_sequence(command_port: u16) -> (steps: Vec<StartStep>)
    requires
        command_port < u16::MAX,
    ensures
        steps_view(steps@) == start_sequence_of(command_port),
{
    proof {
        reveal_strlit("LVERSH");
        reveal_strlit("LSTARH");
        assert("LVERSH".is_ascii() && "LSTARH".is_ascii());
    }
    let mut steps: Vec<StartStep> = Vec::new();
    steps.push(
        StartStep::Send {
            port: command_port,
            bytes: build_command("LVERSH", 1),
            must_succeed: false,
        },
    );
    steps.push(
        StartStep::Send {
            port: command_port + 1,
            bytes: build_command("LVERSH", 1),
            must_succeed: false,
        },
    );
    steps.push(StartStep::Wait { millis: INTER_CMD_DELAY_MS });
    steps.push(
        StartStep::Send {
            port: command_port,
            bytes: build_command("LSTARH", 2),
            must_succeed: true,
        },
    );
    steps.push(
        StartStep::Send {
            port: command_port + 1,
            bytes: build_command("LSTARH", 2),
            must_succeed: true,
        },
    );
    assert(steps_view(steps@) =~= start_sequence_of(command_port));
    steps
}

/// How far starting the sensor has come.
#[derive(Debug, Clone, Copy, PartialEq, Eq, Structural)]
pub enum StartProgress {
    /// The step at this position is next.
    At { position: usize },
    /// All steps are done: the sensor was told to start.
    Succeeded,
    /// The step at this position failed, and its failure is the result.
    Failed { position: usize },
}

/// Whether a step that ended like this ends the start: a send that must succeed and did not.
pub open spec fn step_fails(step: StartStepView, ok: bool) -> bool {
    step matches StartStepView::Send { must_succeed, .. } && must_succeed && !ok
}

/// What follows the step at `position`, which ended like this.
pub open spec fn progress_after(
    steps: Seq<StartStepView>,
    position: int,
    ok: bool,
) -> StartProgress {
    if step_fails(steps[position], ok) {
        StartProgress::Failed { position: position as usize }
    } else if position + 1 < steps.len() {
        StartProgress::At { position: (position + 1) as usize }
    } else {
        StartProgress::Succeeded
    }
}

/// How far starting has come after steps that ended like this, one after the other; nothing is
/// done any more once it succeeded or failed.
pub open spec fn progress_of(steps: Seq<StartStepView>, outcomes: Seq<bool>) -> StartProgress
    decreases outcomes.len(),
{
    if outcomes.len() == 0 {
        StartProgress::At { position: 0 }
    } else {
        match progress_of(steps, outcomes.drop_last()) {
            StartProgress::At { position } => progress_after(
                steps,
                position as int,
                outcomes.last(),
            ),
            ended => ended,
        }
    }
}

/// A sensor that is being started: whoever does the steps tells how each one ended.
pub struct StartRun {
    steps: Vec<StartStep>,
    progress: StartProgress,
}

impl StartRun {
    /// The steps.
    pub closed spec fn plan(&self) -> Seq<StartStepView> {
        steps_view(self.steps@)
    }

    /// How far it has come.
    pub closed spec fn reached(&self) -> StartProgress {
        self.progress
    }

    /// A step that is next is one of the steps.
    pub closed spec fn wf(&self) -> bool {
        self.progress matches StartProgress::At { position } ==> position < self.steps@.len()
    }

    /// Begins to start a sensor with this command port.
    pub fn new(command_port: u16) -> (run: Self)
        requires
            command_port < u16::MAX,
        ensures
            run.wf(),
            run.plan() == start_sequence_of(command_port),
            run.reached() == progress_of(run.plan(), Seq::empty()),
    {
        let steps: Vec<StartStep> = start_sequence(command_port);
        assert(steps_view(steps@).len() == 5);
        StartRun { steps, progress: StartProgress::At { position: 0 } }
    }

    /// The step that is next, where there is one.
    pub fn current(&self) -> (step: Option<&StartStep>)
        requires
            self.wf(),
        ensures
            match self.reached() {
                StartProgress::At { position } => step is Some && step->0@
                    == self.plan()[position as int],
                _ => step is None,
            },
    {
        match self.progress {
            StartProgress::At { position } => Some(&self.steps[position]),
            _ => None,
        }
    }

    /// The step that was next is over. A wait always ends well.
    pub fn finish_step(&mut self, ok: bool) -> (progress: StartProgress)
        requires
            old(self).wf(),
        ensures
            final(self).wf(),
            final(self).plan() == old(self).plan(),
            progress == final(self).reached(),
            progress == (match old(self).reached() {
                StartProgress::At { position } => progress_after(
                    old(self).plan(),
                    position as int,
                    ok,
                ),
                ended => ended,
            }),
    {
        match self.progress {
            StartProgress::At { position } => {
                assert(self.plan()[position as int] == self.steps@[position as int]@);
                let fails: bool = match &self.steps[position] {
                    StartStep::Send { must_succeed, .. } => *must_succeed && !ok,
                    StartStep::Wait { .. } => false,
                };
                if fails {
                    self.progress = StartProgress::Failed { position };
                } else if self.steps.len() - position > 1 {
                    self.progress = StartProgress::At { position: position + 1 };
                } else {
                    self.progress = StartProgress::Succeeded;
                }
            },
            _ => {},
        }
        self.progress
    }
}

/// What a failed send does while a sensor is started, whatever the outcomes `version` and
/// `version_above` of the version queries, which are ignored: starting succeeds exactly where both
/// start commands were sent. The first one that was not is the result, and nothing is sent behind
/// it.
pub proof fn law_start_needs_both_start_commands(
    command_port: u16,
    version: bool,
    version_above: bool,
    waited: bool,
    start: bool,
    start_above: bool,
)
    ensures
        ({
            let steps = start_sequence_of(command_port);
            let queries = seq![version, version_above, waited];
            &&& progress_of(steps, seq![version]) == (StartProgress::At { position: 1 })
            &&& progress_of(steps, seq![version, version_above]) == (StartProgress::At {
                position: 2,
            })
            &&& progress_of(steps, queries) == (StartProgress::At { position: 3 })
            &&& progress_of(steps, queries.push(start)) == (if start {
                StartProgress::At { position: 4 }
            } else {
                StartProgress::Failed { position: 3 }
            })
            &&& progress_of(steps, queries.push(start).push(start_above)) == (if !start {
                StartProgress::Failed { position: 3 }
            } else if !start_above {
                StartProgress::Failed { position: 4 }
            } else {
                StartProgress::Succeeded
            })
        }),
{
    let one = seq![version];
    let two = seq![version, version_above];
    let three = seq![version, version_above, waited];
    let four = three.push(start);
    let five = four.push(start_above);
    assert(one.drop_last() =~= Seq::<bool>::empty());
    assert(two.drop_last() =~= one);
    assert(three.drop_last() =~= two);
    assert(four.drop_last() =~= three);
    assert(five.drop_last() =~= four);
    let steps = start_sequence_of(command_port);
    assert(progress_of(steps, Seq::empty()) == (StartProgress::At { position: 0 }));
    assert(progress_of(steps, one) == (StartProgress::At { position: 1 }));
    assert(progress_of(steps, two) == (StartProgress::At { position: 2 }));
    assert(progress_of(steps, three) == (StartProgress::At { position: 3 }));
}

/// Once starting succeeded or failed, it stays so, whatever else is told.
pub proof fn law_ended_start_stays_ended(
    steps: Seq<StartStepView>,
    outcomes: Seq<bool>,
    more: Seq<bool>,
)
    requires
        !(progress_of(steps, outcomes) is At),
    ensures
        progress_of(steps, outcomes + more) == progress_of(steps, outcomes),
    decreases more.len(),
{
    if more.len() == 0 {
        assert(outcomes + more =~= outcomes);
    } else {
        law_ended_start_stays_ended(steps, outcomes, more.drop_last());
        assert((outcomes + more).drop_last() =~= outcomes + more.drop_last());
    }
}

/// Feeding the register's own contents into it empties it.
proof fn lemma_own_bits_shift_out(crc: u32, n: nat)
    requires
        n <= 32,
    ensures
        after_bits(crc, crc, n) == (if n == 32 {
            0
        } else {
            crc << (n as u32)
        }),
    decreases n,
{
    if n == 0 {
        assert(crc << 0u32 == crc) by (bit_vector);
    } else {
        let k = (n - 1) as u32;
        lemma_own_bits_shift_out(crc, k as nat);
        assert(crc_step(crc << k, word_bit(crc, k)) == (if k == 31 {
            0
        } else {
            crc << ((k + 1) as u32)
        })) by (bit_vector)
            requires
                k < 32,
        ;
    }
}

/// A message followed by its CRC has the CRC 0.
pub proof fn law_stm32_crc_of_message_and_crc_is_zero(words: Seq<u32>)
    ensures
        stm32_crc_of(words.push(stm32_crc_of(words))) == 0,
{
    assert(words.push(stm32_crc_of(words)).drop_last() =~= words);
    lemma_own_bits_shift_out(stm32_crc_of(words), 32);
}

/// What the receiver checks: the CRC over all words of a command, its own CRC included, is 0.
pub proof fn law_command_checks(payload: Seq<u8>, sn: u16)
    ensures
        command_of(payload, sn).len() % 4 == 0,
        stm32_crc_of(words_of(command_of(payload, sn))) == 0,
{
    let part = checked_part(payload, sn);
    let crc = stm32_crc_of(words_of(part));
    let whole = command_of(payload, sn);
    assert(part.len() % 4 == 0);
    assert(words_of(whole) =~= words_of(part).push(crc)) by {
        let n = part.len() as int;
        assert(whole[n] == le32_bytes(crc)[0]);
        assert(whole[n + 1] == le32_bytes(crc)[1]);
        assert(whole[n + 2] == le32_bytes(crc)[2]);
        assert(whole[n + 3] == le32_bytes(crc)[3]);
    }
    law_stm32_crc_of_message_and_crc_is_zero(words_of(part));
}

/// The register and the message bits still to come only matter by their difference.
proof fn lemma_only_the_difference_matters(crc: u32, word: u32, n: nat)
    requires
        n <= 32,
    ensures
        after_bits(crc, word, n) ^ (if n == 32 {
            0
        } else {
            word << (n as u32)
        }) == after_bits(crc ^ word, 0, n),
    decreases n,
{
    if n == 0 {
        assert(word << 0u32 == word) by (bit_vector);
    } else {
        let k = (n - 1) as u32;
        let a = after_bits(crc, word, k as nat);
        let b = after_bits(crc ^ word, 0, k as nat);
        lemma_only_the_difference_matters(crc, word, k as nat);
        assert(crc_step(a, word_bit(word, k)) ^ (if k == 31 {
            0u32
        } else {
            word << ((k + 1) as u32)
        }) == crc_step(b, word_bit(0, k))) by (bit_vector)
            requires
                k < 32,
                a ^ (word << k) == b,
        ;
    }
}

/// Different registers stay different under the same bits.
proof fn lemma_registers_stay_apart(a: u32, b: u32, word: u32, n: nat)
    requires
        a != b,
    ensures
        after_bits(a, word, n) != after_bits(b, word, n),
    decreases n,
{
    if n > 0 {
        let x = after_bits(a, word, (n - 1) as nat);
        let y = after_bits(b, word, (n - 1) as nat);
        let bit = word_bit(word, (n - 1) as u32);
        lemma_registers_stay_apart(a, b, word, (n - 1) as nat);
        assert(crc_step(x, bit) != crc_step(y, bit)) by (bit_vector)
            requires
                x != y,
        ;
    }
}

/// One damaged word is always noticed: it changes the CRC of the message.
pub proof fn law_stm32_crc_detects_one_damaged_word(words: Seq<u32>, i: int, word: u32)
    requires
        0 <= i < words.len(),
        word != words[i],
    ensures
        stm32_crc_of(words.update(i, word)) != stm32_crc_of(words),
    decreases words.len(),
{
    let damaged = words.update(i, word);
    let before = words.drop_last();
    if i == words.len() - 1 {
        let crc = stm32_crc_of(before);
        let w = words[i];
        assert(damaged.drop_last() =~= before);
        lemma_only_the_difference_matters(crc, w, 32);
        lemma_only_the_difference_matters(crc, word, 32);
        assert(crc ^ w != crc ^ word) by (bit_vector)
            requires
                w != word,
        ;
        lemma_registers_stay_apart(crc ^ w, crc ^ word, 0, 32);
        let p = after_bits(crc, w, 32);
        let q = after_bits(crc, word, 32);
        assert(p ^ 0 == p) by (bit_vector);
        assert(q ^ 0 == q) by (bit_vector);
    } else {
        law_stm32_crc_detects_one_damaged_word(before, i, word);
        assert(damaged.drop_last() =~= before.update(i, word));
        lemma_registers_stay_apart(
            stm32_crc_of(before.update(i, word)),
            stm32_crc_of(before),
            words.last(),
            32,
        );
    }
}

/// Where everything stands in a command: the signature `LH`, the code 0x43, the number and the
/// length of the padded payload, low byte first; the payload from byte 8 on, zeros up to a
/// multiple of 4 bytes, fewer than 4 of them; and the CRC over all that, low byte first.
pub proof fn law_layout_of_a_command(payload: Seq<u8>, sn: u16, i: int)
    ensures
        ({
            let command = command_of(payload, sn);
            let end = command.len() - 4;
            let crc = stm32_crc_of(words_of(command.take(end)));
            &&& command.len() % 4 == 0
            &&& 0 <= command.len() - payload.len() - 12 < 4
            &&& command[0] == 0x4C
            &&& command[1] == 0x48
            &&& command[2] == 0x43
            &&& command[3] == 0x00
            &&& command[4] + 256 * command[5] == sn
            &&& command[6] + 256 * command[7] == (command.len() - 12) % 0x1_0000
            &&& 0 <= i < payload.len() ==> command[8 + i] == payload[i]
            &&& payload.len() <= i < end - 8 ==> command[8 + i] == 0
            &&& command[end] + 0x100 * command[end + 1] + 0x1_0000 * command[end + 2] + 0x100_0000
                * command[end + 3] == crc
        }),
{
    let command = command_of(payload, sn);
    let part = checked_part(payload, sn);
    let end = command.len() - 4;
    let pad = padded(payload);
    let crc = le32_bytes(stm32_crc_of(words_of(part)));
    assert(part.len() == 8 + pad.len());
    assert(part.len() == end);
    assert(command.take(end) =~= part);
    assert(part[0] == 0x4C && part[1] == 0x48 && part[2] == 0x43 && part[3] == 0);
    assert(part[4] == (sn % 256) as u8 && part[5] == (sn / 256) as u8);
    assert(0 <= i < pad.len() ==> part[8 + i] == pad[i]);
    assert(command[end] == crc[0] && command[end + 1] == crc[1]);
    assert(command[end + 2] == crc[2] && command[end + 3] == crc[3]);
}

/// The words of bytes: four bytes each, low byte first, in order.
pub proof fn law_words_are_four_bytes(bytes: Seq<u8>, k: int)
    ensures
        words_of(bytes).len() == bytes.len() / 4,
        0 <= k && 4 * k + 3 < bytes.len() ==> words_of(bytes)[k] == bytes[4 * k] + 0x100 * bytes[4
            * k + 1] + 0x1_0000 * bytes[4 * k + 2] + 0x100_0000 * bytes[4 * k + 3],
{
}

/// What is sent to start a sensor, and where: `LVERSH` with the number 1 to the command port and
/// the port above it, whether or not that works; half a second; and `LSTARH` with the number 2 to
/// both, which has to work.
pub proof fn law_start_sends(command_port: u16)
    requires
        command_port < u16::MAX,
    ensures
        ({
            let steps = start_sequence_of(command_port);
            let version = command_of(seq![0x4Cu8, 0x56, 0x45, 0x52, 0x53, 0x48], 1);
            let start = command_of(seq![0x4Cu8, 0x53, 0x54, 0x41, 0x52, 0x48], 2);
            &&& steps.len() == 5
            &&& steps[0] == (StartStepView::Send {
                port: command_port,
                bytes: version,
                must_succeed: false,
            })
            &&& steps[1] is Send && steps[1]->port == command_port + 1
            &&& steps[1]->bytes == version && !steps[1]->must_succeed
            &&& steps[2] == (StartStepView::Wait { millis: 500 })
            &&& steps[3] == (StartStepView::Send {
                port: command_port,
                bytes: start,
                must_succeed: true,
            })
            &&& steps[4] is Send && steps[4]->port == command_port + 1
            &&& steps[4]->bytes == start && steps[4]->must_succeed
        }),
{
    reveal_strlit("LVERSH");
    reveal_strlit("LSTARH");
    assert("LVERSH".is_ascii() && "LSTARH".is_ascii());
    vstd::string::is_ascii_spec_bytes("LVERSH");
    vstd::string::is_ascii_spec_bytes("LSTARH");
    assert("LVERSH".spec_bytes() =~= seq![0x4Cu8, 0x56, 0x45, 0x52, 0x53, 0x48]);
    assert("LSTARH".spec_bytes() =~= seq![0x4Cu8, 0x53, 0x54, 0x41, 0x52, 0x48]);
}

/// What follows a step: a send that has to work and did not ends the start there, everything else
/// leads to the next step, and behind the last one the start has succeeded.
pub proof fn law_progress_of_a_start(steps: Seq<StartStepView>, position: usize, ok: bool)
    requires
        position < steps.len(),
        steps.len() <= usize::MAX,
    ensures
        ({
            let next = progress_after(steps, position as int, ok);
            let fatal = !ok && steps[position as int] is Send
                && steps[position as int]->must_succeed;
            &&& fatal ==> next == (StartProgress::Failed { position })
            &&& !fatal && position < steps.len() - 1 ==> next is At && next->At_position
                == position + 1
            &&& !fatal && position == steps.len() - 1 ==> next is Succeeded
        }),
{
}

/// Each step that is told of moves the start on by that step, from the first one on.
pub proof fn law_progress_step_by_step(steps: Seq<StartStepView>, outcomes: Seq<bool>, ok: bool)
    ensures
        progress_of(steps, Seq::empty()) == (StartProgress::At { position: 0 }),
        progress_of(steps, outcomes) matches StartProgress::At { position } ==> progress_of(
            steps,
            outcomes.push(ok),
        ) == progress_after(steps, position as int, ok),
        !(progress_of(steps, outcomes) is At) ==> progress_of(steps, outcomes.push(ok))
            == progress_of(steps, outcomes),
{
    assert(outcomes.push(ok).drop_last() =~= outcomes);
}

/// The contents of the steps are those of each, in order.
pub proof fn law_steps_show_each_step(steps: Seq<StartStep>, i: int)
    requires
        0 <= i < steps.len(),
    ensures
        steps_view(steps).len() == steps.len(),
        steps_view(steps)[i] is Wait <==> steps[i] is Wait,
        steps[i] is Wait ==> steps_view(steps)[i]->millis == steps[i]->millis,
        steps[i] is Send ==> steps_view(steps)[i]->port == steps[i]->port && steps_view(
            steps,
        )[i]->bytes == steps[i]->bytes@ && steps_view(steps)[i]->must_succeed
            == steps[i]->must_succeed,
{
}

proof fn lemma_no_bit_in_zero(k: u32)
    ensures
        !word_bit(0, k),
{
    let places = (31 - k) as u32;
    assert((0u32 >> places) & 1 != 1) by (bit_vector);
}

/// Two registers together shift as each of them does.
proof fn lemma_registers_add(a: u32, b: u32, n: nat)
    ensures
        after_bits(a ^ b, 0, n) == after_bits(a, 0, n) ^ after_bits(b, 0, n),
    decreases n,
{
    if n > 0 {
        let x = after_bits(a, 0, (n - 1) as nat);
        let y = after_bits(b, 0, (n - 1) as nat);
        lemma_registers_add(a, b, (n - 1) as nat);
        lemma_no_bit_in_zero((n - 1) as u32);
        assert(crc_step(x ^ y, false) == crc_step(x, false) ^ crc_step(y, false)) by (bit_vector);
    }
}

/// One step more at the beginning is one step more at the end.
proof fn lemma_first_step_or_last(crc: u32, n: nat)
    ensures
        after_bits(crc_step(crc, false), 0, n) == crc_step(after_bits(crc, 0, n), false),
    decreases n,
{
    if n > 0 {
        lemma_first_step_or_last(crc, (n - 1) as nat);
        lemma_no_bit_in_zero((n - 1) as u32);
    }
}

proof fn lemma_one_bit_shifts(n: nat)
    requires
        n < 32,
    ensures
        after_bits(1, 0, n) == 1u32 << (n as u32),
    decreases n,
{
    if n == 0 {
        assert(1u32 << 0u32 == 1) by (bit_vector);
    } else {
        let k = (n - 1) as u32;
        lemma_one_bit_shifts(k as nat);
        lemma_no_bit_in_zero(k);
        assert(crc_step(1u32 << k, false) == 1u32 << ((k + 1) as u32)) by (bit_vector)
            requires
                k < 31,
        ;
    }
}

/// The CRC of one word is that word, seen against all ones, shifted through the register.
proof fn lemma_crc_of_one_word(word: u32)
    ensures
        stm32_crc_of(seq![!word]) == after_bits(word, 0, 32),
{
    let one = seq![!word];
    assert(one.drop_last() =~= Seq::<u32>::empty());
    assert(stm32_crc_of(Seq::<u32>::empty()) == 0xFFFF_FFFF);
    lemma_only_the_difference_matters(0xFFFF_FFFF, !word, 32);
    let crc = after_bits(0xFFFF_FFFF, !word, 32);
    assert(crc ^ 0 == crc) by (bit_vector);
    assert(0xFFFF_FFFFu32 ^ !word == word) by (bit_vector);
}

/// The CRC goes word by word: without a word it is all ones, and one more word enters it by its
/// difference from the CRC so far, as a first word does by its difference from all ones.
pub proof fn law_stm32_crc_goes_word_by_word(words: Seq<u32>, word: u32)
    ensures
        stm32_crc_of(Seq::empty()) == 0xFFFF_FFFF,
        stm32_crc_of(words.push(word)) == stm32_crc_of(seq![!(stm32_crc_of(words) ^ word)]),
{
    let crc = stm32_crc_of(words);
    assert(words.push(word).drop_last() =~= words);
    lemma_only_the_difference_matters(crc, word, 32);
    let after = after_bits(crc, word, 32);
    assert(after ^ 0 == after) by (bit_vector);
    lemma_crc_of_one_word(crc ^ word);
}

/// The CRC of one word, as a remainder: by their differences from all ones, words add up to words
/// with the sum of the remainders; 1 has the generator 0x04C11DB7 as its remainder; and twice a
/// word has twice the remainder, less the generator where that does not fit in 32 bits.
pub proof fn law_stm32_crc_is_a_remainder(a: u32, b: u32)
    ensures
        stm32_crc_of(seq![!(a ^ b)]) == stm32_crc_of(seq![!a]) ^ stm32_crc_of(seq![!b]),
        stm32_crc_of(seq![!1u32]) == 0x04C1_1DB7,
        a < 0x8000_0000 ==> stm32_crc_of(seq![!(a << 1u32)]) == (stm32_crc_of(seq![!a]) << 1u32)
            ^ (if stm32_crc_of(seq![!a]) >= 0x8000_0000 {
            0x04C1_1DB7u32
        } else {
            0u32
        }),
{
    lemma_crc_of_one_word(a);
    lemma_crc_of_one_word(b);
    lemma_crc_of_one_word(a ^ b);
    lemma_crc_of_one_word(1);
    lemma_crc_of_one_word(a << 1u32);
    lemma_registers_add(a, b, 32);
    lemma_one_bit_shifts(31);
    lemma_no_bit_in_zero(31);
    assert(crc_step(1u32 << 31u32, false) == 0x04C1_1DB7) by (bit_vector);
    if a < 0x8000_0000 {
        let crc = after_bits(a, 0, 32);
        assert(crc_step(a, false) == a << 1u32) by (bit_vector)
            requires
                a < 0x8000_0000,
        ;
        lemma_first_step_or_last(a, 32);
        assert(crc_step(crc, false) == (crc << 1u32) ^ (if crc >= 0x8000_0000 {
            0x04C1_1DB7u32
        } else {
            0u32
        })) by (bit_vector);
    }
}

} // verus!
