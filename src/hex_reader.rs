use vstd::prelude::*;
use vstd::slice::slice_subrange;
use vstd::string::StrSliceExecFns;
use vstd::string::StringExecFns;

use crate::line_counter::{wrapped_sum, LineCounter};
use crate::text_utilities::{
    ascii_char, ascii_field, field_width, hex_digit_char, hex_digits, hex_field, hex_len,
    is_crlf, is_gutter, lemma_hex_digits_within, lemma_hex_field_fits, pad_spaces, push_char, push_lower_hex, spaces,
    pow16, zero_padded, Formatting, ASCII_PERIOD,
};

verus! {

/// The address tag of a line: `[0x` and the offset in lowercase hexadecimal,
/// zero-padded to six digits (eight characters with the `0x`), then `]`.
pub open spec fn address_field(count: nat) -> Seq<char> {
    seq!['[', '0', 'x'] + zero_padded(hex_digits(count), 6) + seq![']']
}

/// How many spaces follow a hex field of `len` characters so that the ASCII
/// field starts at the same column on every line.
pub open spec fn hex_padding(cfg: Formatting, len: nat) -> nat {
    if len < cfg.ascii_line_width {
        (cfg.ascii_line_width - len) as nat
    } else {
        0
    }
}

/// The line for a non-empty chunk read at offset `count`:
/// `[address]  hex-field padding |ascii-field|` and a line feed.
pub open spec fn data_line(cfg: Formatting, count: nat, chunk: Seq<u8>) -> Seq<char> {
    let hex = hex_field(chunk, cfg.gutter_per_n_bytes as int, cfg.bytes_to_read as int);
    address_field(count) + seq![' ', ' '] + hex + spaces(hex_padding(cfg, hex.len())) + seq!['|']
        + ascii_field(chunk) + seq!['|', '\n']
}

/// The line after the end of input: the address alone and a line feed.
pub open spec fn end_line(count: nat) -> Seq<char> {
    address_field(count).push('\n')
}

/// The line produced for `chunk` (empty at the end of input) at offset `count`.
pub open spec fn next_line(cfg: Formatting, count: nat, chunk: Seq<u8>) -> Seq<char> {
    if chunk.len() == 0 {
        end_line(count)
    } else {
        data_line(cfg, count, chunk)
    }
}

/// Turns the chunks read from a byte source into lines of hex representation.
/// It's sort of a one-shot operation to get line-by-line formatted text: the
/// caller reads up to `bytes_to_read` bytes at a time and hands each chunk
/// over; an empty chunk marks the end of input.
pub struct HexLineReader {
    /// internal counter for # lines read
    lc: LineCounter,
    /// buffer holding the most recent chunk
    buf: Vec<u8>,
    /// number of bytes in the most recent chunk
    bytes_read: usize,
    /// Formatting object for string-based output
    cfg: Formatting,
    /// Has this struct reached the end of file?
    exhausted: bool,
}

impl HexLineReader {
    /// The layout in use.
    pub closed spec fn spec_config(&self) -> Formatting {
        self.cfg
    }

    /// The offset of the next line.
    pub closed spec fn spec_address(&self) -> usize {
        self.lc.spec_count()
    }

    /// Whether the end-of-input line has been produced.
    pub closed spec fn spec_exhausted(&self) -> bool {
        self.exhausted
    }

    /// The bytes of the most recent chunk.
    pub closed spec fn spec_buffered(&self) -> Seq<u8> {
        self.buf@.subrange(0, self.bytes_read as int)
    }

    /// The layout is valid, the buffer holds one full chunk, and the counter
    /// steps by the chunk width.
    pub closed spec fn wf(&self) -> bool {
        &&& self.cfg.wf()
        &&& self.buf@.len() == self.cfg.bytes_to_read
        &&& self.bytes_read <= self.buf@.len()
        &&& self.lc.spec_step() == self.cfg.bytes_to_read
    }

    /// Get new HexLineReader instance
    /// # Arguments
    /// * fmt - Formatting object containing the text layout to use
    pub fn new(fmt: Formatting) -> (r: Self)
        requires
            fmt.wf(),
        ensures
            r.wf(),
            r.spec_config() == fmt,
            r.spec_address() == 0,
            !r.spec_exhausted(),
            r.spec_buffered().len() == 0,
    {
        HexLineReader {
            lc: LineCounter::new(fmt.bytes_to_read),
            buf: vec![0; fmt.bytes_to_read],
            cfg: fmt,
            exhausted: false,
            bytes_read: 0,
        }
    }

    /// Fill own buffer with the bytes of a chunk that was read
    pub fn fill_buf_next(&mut self, chunk: &[u8])
        requires
            old(self).wf(),
            chunk@.len() <= old(self).spec_config().bytes_to_read,
        ensures
            final(self).wf(),
            final(self).spec_buffered() == chunk@,
            final(self).spec_config() == old(self).spec_config(),
            final(self).spec_address() == old(self).spec_address(),
            final(self).spec_exhausted() == old(self).spec_exhausted(),
    {
        let mut i: usize = 0;
        while i < chunk.len()
            invariant
                self.wf(),
                self.cfg == old(self).cfg,
                self.lc == old(self).lc,
                self.exhausted == old(self).exhausted,
                chunk@.len() <= self.buf@.len(),
                i <= chunk@.len(),
                self.buf@.subrange(0, i as int) == chunk@.subrange(0, i as int),
            decreases chunk@.len() - i,
        {
            self.buf.set(i, chunk[i]);
            i = i + 1;
            assert(self.buf@.subrange(0, i as int) =~= chunk@.subrange(0, i as int));
        }
        self.bytes_read = chunk.len();
        assert(chunk@.subrange(0, i as int) =~= chunk@);
    }

    /// Reference to buffer, limited by the amount of bytes read
    pub fn get_buf_ref(&self) -> (r: &[u8])
        requires
            self.wf(),
        ensures
            r@ == self.spec_buffered(),
    {
        slice_subrange(self.buf.as_slice(), 0, self.bytes_read)
    }

    /// Read current buffer as hex representation
    ///
    /// This will include some formatting (gutters primarily)
    pub fn buf_as_hex_string(&self) -> (r: String)
        requires
            self.wf(),
        ensures
            r@ == hex_field(
                self.spec_buffered(),
                self.spec_config().gutter_per_n_bytes as int,
                self.spec_config().bytes_to_read as int,
            ),
    {
        let buf = self.get_buf_ref();
        let interval = self.cfg.gutter_per_n_bytes;
        let max = self.cfg.bytes_to_read;
        let mut s = String::new();
        let mut index: usize = 0;
        while index < buf.len()
            invariant
                interval > 0,
                index <= buf@.len(),
                s@ == hex_field(buf@.subrange(0, index as int), interval as int, max as int),
            decreases buf@.len() - index,
        {
            let byte = buf[index];
            push_char(&mut s, hex_digit_char(byte / 16));
            push_char(&mut s, hex_digit_char(byte % 16));
            push_char(&mut s, ' ');
            if is_gutter(index, interval, max) {
                push_char(&mut s, ' ');
            }
            proof {
                let done = buf@.subrange(0, index + 1);
                assert(done.drop_last() =~= buf@.subrange(0, index as int));
                assert(s@ =~= hex_field(done, interval as int, max as int));
            }
            index = index + 1;
        }
        assert(buf@.subrange(0, index as int) =~= buf@);
        s
    }

    /// Read current buffer as ASCII representation
    ///
    /// This will include some substitutions and ignore whitespace
    ///     (\r || \n => '.')
    ///     (whitespace => ' ')
    ///     (unknown => '.')
    pub fn buf_as_ascii_string(&self) -> (r: String)
        requires
            self.wf(),
        ensures
            r@ == ascii_field(self.spec_buffered()),
    {
        let buf = self.get_buf_ref();
        let mut s = String::new();
        let mut index: usize = 0;
        while index < buf.len()
            invariant
                index <= buf@.len(),
                s@ == ascii_field(buf@.subrange(0, index as int)),
            decreases buf@.len() - index,
        {
            let byte = buf[index];
            let c = byte as char;
            let shown = if is_crlf(c) {
                ASCII_PERIOD as char
            } else if byte == 0x20 || byte == 0x09 || byte == 0x0c {
                ' '
            } else if 0x21 <= byte && byte <= 0x7e {
                c
            } else {
                ASCII_PERIOD as char
            };
            assert(shown == ascii_char(byte));
            push_char(&mut s, shown);
            index = index + 1;
            assert(s@ =~= ascii_field(buf@.subrange(0, index as int)));
        }
        assert(buf@.subrange(0, index as int) =~= buf@);
        s
    }

    /// Get next line representation for the chunk that was just read; an
    /// empty chunk marks the end of input. After the end-of-input line there
    /// are no more lines.
    ///
    /// Will print both address, hex, and ascii representation.
    ///
    /// # Example
    /// `[address] hex add res ses |ascii.representation|`
    pub fn get_next_line(&mut self, chunk: &[u8]) -> (r: Option<String>)
        requires
            old(self).wf(),
            chunk@.len() <= old(self).spec_config().bytes_to_read,
        ensures
            final(self).wf(),
            final(self).spec_config() == old(self).spec_config(),
            old(self).spec_exhausted() ==> r is None && final(self).spec_exhausted()
                && final(self).spec_address() == old(self).spec_address(),
            !old(self).spec_exhausted() ==> {
                &&& r is Some
                &&& r->Some_0@ == next_line(
                    old(self).spec_config(),
                    old(self).spec_address() as nat,
                    chunk@,
                )
                &&& final(self).spec_exhausted() == (chunk@.len() == 0)
                &&& final(self).spec_address() == if chunk@.len() == 0 {
                    old(self).spec_address()
                } else {
                    wrapped_sum(old(self).spec_address(), old(self).spec_config().bytes_to_read)
                }
            },
    {
        if self.exhausted {
            return None;
        }
        // fill self.buf and set self.bytes_read
        self.fill_buf_next(chunk);
        let mut out = String::new();

        // write ADDR
        let addr = address_string(self.lc.count());
        out.append(addr.as_str());

        // if no bytes, write \n and set self.exhausted
        if self.bytes_read == 0 {
            push_char(&mut out, '\n');
            self.exhausted = true;
            return Some(out);
        }

        // write HEX LINE
        let line = self.buf_as_hex_string();
        let line_len = line.as_str().unicode_len();
        let remainder = if line_len < self.cfg.ascii_line_width {
            self.cfg.ascii_line_width - line_len
        } else {
            0
        };
        push_char(&mut out, ' ');
        push_char(&mut out, ' ');
        out.append(line.as_str());
        let pad = pad_spaces(remainder);
        out.append(pad.as_str());

        // write ASCII LINE
        let line = self.buf_as_ascii_string();
        push_char(&mut out, '|');
        out.append(line.as_str());
        push_char(&mut out, '|');
        push_char(&mut out, '\n');

        self.lc.increment();
        assert(out@ =~= next_line(self.cfg, old(self).spec_address() as nat, chunk@));
        Some(out)
    }

    /// Hand the reader over to a pull-style iterator.
    pub fn into_iter(self) -> (r: HexReaderIterator)
        ensures
            r.spec_reader() == self,
    {
        HexReaderIterator { hr: self }
    }
}

/// The address tag for offset `count`.
fn address_string(count: usize) -> (r: String)
    ensures
        r@ == address_field(count as nat),
{
    let mut s = String::new();
    push_char(&mut s, '[');
    push_char(&mut s, '0');
    push_char(&mut s, 'x');
    let digits = hex_len(count);
    let mut i: usize = digits;
    while i < 6
        invariant
            digits <= i,
            digits == hex_digits(count as nat).len(),
            i <= 6 || i == digits,
            s@ == seq!['[', '0', 'x'] + Seq::new((i - digits) as nat, |k: int| '0'),
        decreases 6 - i,
    {
        push_char(&mut s, '0');
        i = i + 1;
        assert(s@ =~= seq!['[', '0', 'x'] + Seq::new((i - digits) as nat, |k: int| '0'));
    }
    push_lower_hex(&mut s, count);
    push_char(&mut s, ']');
    proof {
        let d = hex_digits(count as nat);
        if d.len() < 6 {
            assert(i == 6);
        } else {
            assert(Seq::new((i - digits) as nat, |k: int| '0') =~= Seq::<char>::empty());
        }
        assert(s@ =~= address_field(count as nat));
    }
    s
}

/// Pulls lines out of a `HexLineReader`, one chunk at a time.
pub struct HexReaderIterator {
    hr: HexLineReader,
}

impl HexReaderIterator {
    /// The reader the lines come from.
    pub closed spec fn spec_reader(&self) -> HexLineReader {
        self.hr
    }

    /// The next line, for the chunk that was just read; `None` once the
    /// end-of-input line has been produced.
    pub fn next(&mut self, chunk: &[u8]) -> (r: Option<String>)
        requires
            old(self).spec_reader().wf(),
            chunk@.len() <= old(self).spec_reader().spec_config().bytes_to_read,
        ensures
            ({
                let before = old(self).spec_reader();
                let after = final(self).spec_reader();
                &&& after.wf()
                &&& after.spec_config() == before.spec_config()
                &&& before.spec_exhausted() ==> r is None && after.spec_exhausted()
                    && after.spec_address() == before.spec_address()
                &&& !before.spec_exhausted() ==> r is Some && r->Some_0@ == next_line(
                    before.spec_config(),
                    before.spec_address() as nat,
                    chunk@,
                ) && after.spec_exhausted() == (chunk@.len() == 0) && after.spec_address()
                    == if chunk@.len() == 0 {
                    before.spec_address()
                } else {
                    wrapped_sum(before.spec_address(), before.spec_config().bytes_to_read)
                }
            }),
    {
        self.hr.get_next_line(chunk)
    }
}

/// Below `16^6` the address renders as exactly eight characters between the
/// brackets (`0x` and six digits); from there on it widens and is never cut.
pub proof fn lemma_address_width(count: nat)
    ensures
        count < pow16(6) <==> address_field(count).len() == 10,
        address_field(count).len() >= 10,
        address_field(count).subrange(
            address_field(count).len() - 1 - hex_digits(count).len(),
            address_field(count).len() - 1,
        ) == hex_digits(count),
{
    lemma_hex_digits_within(count, 6);
    let d = hex_digits(count);
    let f = address_field(count);
    assert(f.subrange(f.len() - 1 - d.len(), f.len() - 1) =~= d);
    assert(zero_padded(d, 6).len() == if d.len() < 6 {
        6
    } else {
        d.len()
    });
}

/// The hex field and its padding fill exactly `ascii_line_width` columns, so
/// the ASCII field starts at the same column on every data line, short final
/// chunk included.
pub proof fn lemma_hex_section_aligned(cfg: Formatting, chunk: Seq<u8>)
    requires
        cfg.wf(),
        chunk.len() <= cfg.bytes_to_read,
    ensures
        ({
            let hex = hex_field(chunk, cfg.gutter_per_n_bytes as int, cfg.bytes_to_read as int);
            hex.len() + hex_padding(cfg, hex.len()) == cfg.ascii_line_width
        }),
{
    lemma_hex_field_fits(chunk, cfg.gutter_per_n_bytes as int, cfg.bytes_to_read as int);
}

/// Two readers with the same layout, at the same offset and in the same
/// phase give the same line for the same chunk and move on to the same
/// offset, whatever their buffers held before: a dump over the same input
/// produces the same output every time.
pub proof fn lemma_repeatable(a: HexLineReader, b: HexLineReader, chunk: Seq<u8>)
    requires
        a.wf(),
        b.wf(),
        a.spec_config() == b.spec_config(),
        a.spec_address() == b.spec_address(),
        a.spec_exhausted() == b.spec_exhausted(),
    ensures
        next_line(a.spec_config(), a.spec_address() as nat, chunk) == next_line(
            b.spec_config(),
            b.spec_address() as nat,
            chunk,
        ),
        wrapped_sum(a.spec_address(), a.spec_config().bytes_to_read) == wrapped_sum(
            b.spec_address(),
            b.spec_config().bytes_to_read,
        ),
{
}

} // verus!
