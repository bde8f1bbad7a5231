//! What to look at when no frames come out: counts of a reporting interval, and a dump of the
//! first bytes.
//!
//! Where frames come out, all is well. Where none do and checksums fail, the frames are found but
//! damaged. Where bytes are dropped and no checksum fails, there is no header at all: another
//! speed or another format.

use crate::text::{push_decimal, push_hex};
use vstd::prelude::*;

verus! {

use crate::text::{
    decimal_of, hex_of, law_decimal_reads_back, law_hex_goes_by_digits, law_hex_of_byte, number_in,
};

/// The most bytes that are dumped.
pub const DUMP_LIMIT: usize = 160;

/// Bytes in one line of a dump.
pub const DUMP_WIDTH: usize = 16;

/// Counts of one reporting interval, and what has been logged once already.
#[derive(Debug, Clone, Copy, PartialEq, Eq, Structural)]
pub struct DecodeStats {
    pub bytes: usize,
    pub ok: usize,
    /// Bytes dropped because no frame began there.
    pub skipped: usize,
    /// Bytes among these that were dropped because of a checksum.
    pub crc_failures: usize,
    pub logged_first_bytes: bool,
    pub logged_first_frame: bool,
}

/// The report on an interval.
pub open spec fn report_of(stats: DecodeStats) -> Seq<char> {
    "[debug] 1초: "@ + decimal_of(stats.bytes as nat) + "B 수신 · 프레임 ok="@ + decimal_of(
        stats.ok as nat,
    ) + " · 동기화 버림="@ + decimal_of(stats.skipped as nat) + "B · CRC불일치="@ + decimal_of(
        stats.crc_failures as nat,
    )
}

impl Default for DecodeStats {
    fn default() -> (stats: Self)
        ensures
            stats == (DecodeStats {
                bytes: 0,
                ok: 0,
                skipped: 0,
                crc_failures: 0,
                logged_first_bytes: false,
                logged_first_frame: false,
            }),
    {
        DecodeStats {
            bytes: 0,
            ok: 0,
            skipped: 0,
            crc_failures: 0,
            logged_first_bytes: false,
            logged_first_frame: false,
        }
    }
}

impl DecodeStats {
    /// The report on the interval.
    pub fn report(&self) -> (text: String)
        ensures
            text@ == report_of(*self),
    {
        let mut text: String = String::from_str("[debug] 1초: ");
        push_decimal(&mut text, self.bytes as u64);
        text.append("B 수신 · 프레임 ok=");
        push_decimal(&mut text, self.ok as u64);
        text.append(" · 동기화 버림=");
        push_decimal(&mut text, self.skipped as u64);
        text.append("B · CRC불일치=");
        push_decimal(&mut text, self.crc_failures as u64);
        text
    }

    /// Begins a new interval; what was logged once stays logged.
    pub fn reset_interval(&mut self)
        ensures
            *final(self) == (DecodeStats {
                bytes: 0,
                ok: 0,
                skipped: 0,
                crc_failures: 0,
                ..*old(self)
            }),
    {
        self.bytes = 0;
        self.ok = 0;
        self.skipped = 0;
        self.crc_failures = 0;
    }
}

/// Bytes in hexadecimal, with single spaces between them.
pub open spec fn hex_row(bytes: Seq<u8>) -> Seq<char>
    decreases bytes.len(),
{
    if bytes.len() == 0 {
        Seq::empty()
    } else if bytes.len() == 1 {
        hex_of(bytes[0] as nat, 2)
    } else {
        hex_row(bytes.drop_last()) + " "@ + hex_of(bytes.last() as nat, 2)
    }
}

/// Line `line` of a dump: the offset of its first byte, and up to 16 bytes.
pub open spec fn dump_line(bytes: Seq<u8>, line: int) -> Seq<char> {
    let from = 16 * line;
    let to = if from + 16 < bytes.len() {
        from + 16
    } else {
        bytes.len() as int
    };
    "[debug]   "@ + hex_of(from as nat, 4) + ": "@ + hex_row(bytes.subrange(from, to))
}

/// A dump of bytes, line by line.
pub fn hex_dump(bytes: &[u8]) -> (lines: Vec<String>)
    ensures
        lines@.len() == (bytes@.len() + 15) / 16,
        forall|line: int|
            0 <= line < lines@.len() ==> (#[trigger] lines@[line])@ == dump_line(bytes@, line),
{
    let count: usize = bytes.len();
    let mut lines: Vec<String> = Vec::new();
    let mut from: usize = 0;
    while from < count
        invariant
            count == bytes@.len(),
            from == (if 16 * lines@.len() < bytes@.len() {
                16 * lines@.len()
            } else {
                bytes@.len()
            }),
            lines@.len() <= (bytes@.len() + 15) / 16,
            forall|line: int|
                0 <= line < lines@.len() ==> (#[trigger] lines@[line])@ == dump_line(bytes@, line),
        decreases bytes@.len() - from,
    {
        let to: usize = if count - from > DUMP_WIDTH {
            from + DUMP_WIDTH
        } else {
            count
        };
        let mut text: String = String::from_str("[debug]   ");
        push_hex(&mut text, from, 4);
        text.append(": ");
        let ghost head = text@;
        let mut i: usize = from;
        assert(head + hex_row(bytes@.subrange(from as int, from as int)) =~= head);
        while i < to
            invariant
                from <= i <= to <= bytes@.len(),
                text@ == head + hex_row(bytes@.subrange(from as int, i as int)),
            decreases to - i,
        {
            let ghost row = bytes@.subrange(from as int, i + 1);
            assert(row.drop_last() =~= bytes@.subrange(from as int, i as int));
            if i > from {
                text.append(" ");
            }
            push_hex(&mut text, bytes[i] as usize, 2);
            i = i + 1;
            assert(text@ =~= head + hex_row(row));
        }
        assert(text@ == dump_line(bytes@, lines@.len() as int));
        lines.push(text);
        from = to;
    }
    lines
}

/// The counts of a report can be read off it: each stands behind its own label, in decimal digits,
/// and in this order come the bytes, the frames, the dropped bytes and the checksum failures.
pub proof fn law_report_tells_the_counts(stats: DecodeStats)
    ensures
        exists|bytes: Seq<char>, ok: Seq<char>, skipped: Seq<char>, failures: Seq<char>|
            #![trigger number_in(bytes, u64::MAX as nat), number_in(ok, u64::MAX as nat), number_in(skipped, u64::MAX as nat), number_in(failures, u64::MAX as nat)]
            {
                &&& report_of(stats) == "[debug] 1초: "@ + bytes + "B 수신 · 프레임 ok="@ + ok
                    + " · 동기화 버림="@ + skipped + "B · CRC불일치="@ + failures
                &&& number_in(bytes, u64::MAX as nat) == Some(stats.bytes as nat)
                &&& number_in(ok, u64::MAX as nat) == Some(stats.ok as nat)
                &&& number_in(skipped, u64::MAX as nat) == Some(stats.skipped as nat)
                &&& number_in(failures, u64::MAX as nat) == Some(stats.crc_failures as nat)
            },
{
    let most = u64::MAX as nat;
    law_decimal_reads_back(stats.bytes as nat, most);
    law_decimal_reads_back(stats.ok as nat, most);
    law_decimal_reads_back(stats.skipped as nat, most);
    law_decimal_reads_back(stats.crc_failures as nat, most);
    let bytes = decimal_of(stats.bytes as nat);
    let ok = decimal_of(stats.ok as nat);
    let skipped = decimal_of(stats.skipped as nat);
    let failures = decimal_of(stats.crc_failures as nat);
    assert(number_in(bytes, most) == Some(stats.bytes as nat));
    assert(number_in(ok, most) == Some(stats.ok as nat));
    assert(number_in(skipped, most) == Some(stats.skipped as nat));
    assert(number_in(failures, most) == Some(stats.crc_failures as nat));
}

/// Where each byte stands in a row: two hexadecimal digits for each, the higher one first, and one
/// space between two bytes.
pub proof fn law_row_shows_each_byte(bytes: Seq<u8>, i: int)
    requires
        0 <= i < bytes.len(),
    ensures
        hex_row(Seq::empty()) == Seq::<char>::empty(),
        hex_row(bytes).len() == 3 * bytes.len() - 1,
        hex_row(bytes)[3 * i] == hex_of((bytes[i] / 16) as nat, 1)[0],
        hex_row(bytes)[3 * i + 1] == hex_of((bytes[i] % 16) as nat, 1)[0],
        i + 1 < bytes.len() ==> hex_row(bytes)[3 * i + 2] == ' ',
    decreases bytes.len(),
{
    let last = bytes.last();
    reveal_strlit(" ");
    law_hex_of_byte(last);
    law_hex_goes_by_digits(0, 0, (last / 16) as nat);
    law_hex_goes_by_digits(0, 0, (last % 16) as nat);
    if bytes.len() > 1 {
        let earlier = bytes.drop_last();
        law_row_shows_each_byte(
            earlier,
            if i < earlier.len() {
                i
            } else {
                0
            },
        );
    }
}

/// What the lines of a dump hold: line `line` begins with its offset, 16 times its number, and
/// byte `i` stands in line `i / 16` at place `i % 16`.
pub proof fn law_dump_shows_each_byte(bytes: Seq<u8>, i: int)
    requires
        0 <= i < bytes.len(),
    ensures
        ({
            let text = dump_line(bytes, i / 16);
            let offset = hex_of((i - i % 16) as nat, 4);
            let at = 12 + offset.len() + 3 * (i % 16);
            &&& text.take(10) == "[debug]   "@
            &&& text.subrange(10, 10 + offset.len() as int) == offset
            &&& text[10 + offset.len() as int] == ':'
            &&& text[11 + offset.len() as int] == ' '
            &&& text[at] == hex_of((bytes[i] / 16) as nat, 1)[0]
            &&& text[at + 1] == hex_of((bytes[i] % 16) as nat, 1)[0]
        }),
{
    let line = i / 16;
    let from = 16 * line;
    let to = if from + 16 < bytes.len() {
        from + 16
    } else {
        bytes.len() as int
    };
    let row = bytes.subrange(from, to);
    let text = dump_line(bytes, line);
    let offset = hex_of(from as nat, 4);
    reveal_strlit("[debug]   ");
    reveal_strlit(": ");
    assert(from == i - i % 16);
    assert(row[i % 16] == bytes[i]);
    law_row_shows_each_byte(row, i % 16);
    assert(text.take(10) =~= "[debug]   "@);
    assert(text.subrange(10, 10 + offset.len() as int) =~= offset);
}

} // verus!
