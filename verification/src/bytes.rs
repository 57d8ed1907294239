use vstd::prelude::*;
use vstd::string::*;

verus! {

/// Number of bytes shown on one line of a hex dump.
pub const BYTES_PER_LINE: usize = 16;

// ---------------------------------------------------------------------------
// Hexadecimal text
// ---------------------------------------------------------------------------

/// The lower-case hexadecimal digit for `d` (below 16).
pub open spec fn hex_digit(d: nat) -> char {
    if d < 10 {
        (d + 48) as char
    } else {
        (d + 87) as char
    }
}

/// The lower-case hexadecimal digits of `n`, most significant first, with no
/// leading zeros (zero itself is "0").
pub open spec fn hex_digits(n: nat) -> Seq<char>
    decreases n,
{
    if n < 16 {
        seq![hex_digit(n)]
    } else {
        hex_digits(n / 16).push(hex_digit(n % 16))
    }
}

/// `hex_digits(n)` with zeros in front up to `width` characters, as the
/// format `{:0width$x}` writes it.
pub open spec fn hex_padded(n: nat, width: nat) -> Seq<char> {
    let digits = hex_digits(n);
    if digits.len() < width {
        Seq::new((width - digits.len()) as nat, |i: int| '0') + digits
    } else {
        digits
    }
}

// ---------------------------------------------------------------------------
// The dump
// ---------------------------------------------------------------------------

/// Whether `b` is shown as itself in the text column: an ASCII graphic
/// character or the space.
pub open spec fn is_shown(b: u8) -> bool {
    0x20 <= b <= 0x7e
}

/// The character of the text column for `b`.
pub open spec fn shown_char(b: u8) -> char {
    if is_shown(b) {
        b as char
    } else {
        '.'
    }
}

/// The first `k` cells of the hex column for `chunk`: two digits and a space
/// for each byte, three spaces past its end.
pub open spec fn hex_cells(chunk: Seq<u8>, k: nat) -> Seq<char>
    decreases k,
{
    if k == 0 {
        Seq::empty()
    } else {
        hex_cells(chunk, (k - 1) as nat) + if k - 1 < chunk.len() {
            hex_padded(chunk[k - 1] as nat, 2).push(' ')
        } else {
            seq![' ', ' ', ' ']
        }
    }
}

/// The text column for `chunk`.
pub open spec fn text_column(chunk: Seq<u8>) -> Seq<char> {
    chunk.map_values(|b: u8| shown_char(b))
}

/// One line of the dump: offset, hex column, text column.
pub open spec fn dump_line(offset: nat, chunk: Seq<u8>) -> Seq<char> {
    hex_padded(offset, 4) + seq![':', ' '] + hex_cells(chunk, BYTES_PER_LINE as nat) + seq![' ']
        + text_column(chunk)
}

/// The bytes shown on line `line` of the dump of `bytes`.
pub open spec fn line_chunk(bytes: Seq<u8>, line: nat) -> Seq<u8> {
    let start = BYTES_PER_LINE * line;
    let end = if start + BYTES_PER_LINE <= bytes.len() {
        start + BYTES_PER_LINE
    } else {
        bytes.len() as int
    };
    bytes.subrange(start as int, end)
}

/// The first `n` lines of the dump of `bytes`, each but the very last one of
/// the whole dump followed by a newline.
pub open spec fn dump_lines(bytes: Seq<u8>, n: nat) -> Seq<char>
    decreases n,
{
    if n == 0 {
        Seq::empty()
    } else {
        let line = (n - 1) as nat;
        let chunk = line_chunk(bytes, line);
        let offset = (BYTES_PER_LINE * line) as nat;
        dump_lines(bytes, line) + dump_line(offset, chunk) + if offset + chunk.len()
            < bytes.len() {
            seq!['\n']
        } else {
            Seq::empty()
        }
    }
}

/// Number of lines in the dump of `bytes`.
pub open spec fn line_count(bytes: Seq<u8>) -> nat {
    ((bytes.len() + 15) / 16) as nat
}

/// The hex dump of `bytes`, sixteen bytes per line.
pub open spec fn hex_dump(bytes: Seq<u8>) -> Seq<char> {
    dump_lines(bytes, line_count(bytes))
}

// ---------------------------------------------------------------------------
// Implementation
// ---------------------------------------------------------------------------

/// Appends `c` to `s` (std's `String::push`).
#[verifier::external_body]
fn push_char(s: &mut String, c: char)
    ensures
        final(s)@ == old(s)@.push(c),
{
    s.push(c);
}

fn hex_digit_char(d: u8) -> (c: char)
    requires
        d < 16,
    ensures
        c == hex_digit(d as nat),
{
    if d < 10 {
        (d + 48) as char
    } else {
        (d + 87) as char
    }
}

fn hex_len(value: usize) -> (len: usize)
    ensures
        len == hex_digits(value as nat).len(),
        len <= value + 1,
    decreases value,
{
    if value < 16 {
        1
    } else {
        hex_len(value / 16) + 1
    }
}

fn push_hex(out: &mut String, value: usize)
    ensures
        final(out)@ == old(out)@ + hex_digits(value as nat),
    decreases value,
{
    if value >= 16 {
        push_hex(out, value / 16);
    }
    push_char(out, hex_digit_char((value % 16) as u8));
}

fn push_hex_padded(out: &mut String, value: usize, width: usize)
    ensures
        final(out)@ == old(out)@ + hex_padded(value as nat, width as nat),
{
    let ghost start = out@;
    let len = hex_len(value);
    if len < width {
        let zeros = width - len;
        let mut i: usize = 0;
        while i < zeros
            invariant
                i <= zeros,
                out@ == start + Seq::new(i as nat, |j: int| '0'),
            decreases zeros - i,
        {
            push_char(out, '0');
            i = i + 1;
            assert(out@ =~= start + Seq::new(i as nat, |j: int| '0'));
        }
    }
    push_hex(out, value);
    assert(out@ =~= start + hex_padded(value as nat, width as nat));
}

/// Appends the dump line for the `chunk_len` bytes of `bytes` at `start`.
fn push_dump_line(out: &mut String, bytes: &[u8], start: usize, chunk_len: usize)
    requires
        1 <= chunk_len <= BYTES_PER_LINE,
        start + chunk_len <= bytes@.len(),
    ensures
        final(out)@ == old(out)@ + dump_line(
            start as nat,
            bytes@.subrange(start as int, start + chunk_len),
        ),
{
    let n = bytes.len();
    let ghost chunk = bytes@.subrange(start as int, start + chunk_len);
    let ghost line_start = out@;

    push_hex_padded(out, start, 4);
    push_char(out, ':');
    push_char(out, ' ');
    let ghost before_cells = out@;

    let mut index: usize = 0;
    while index < BYTES_PER_LINE
        invariant
            index <= BYTES_PER_LINE,
            start + chunk_len <= n,
            n == bytes@.len(),
            chunk == bytes@.subrange(start as int, start + chunk_len),
            out@ == before_cells + hex_cells(chunk, index as nat),
        decreases BYTES_PER_LINE - index,
    {
        if index < chunk_len {
            push_hex_padded(out, bytes[start + index] as usize, 2);
            push_char(out, ' ');
        } else {
            push_char(out, ' ');
            push_char(out, ' ');
            push_char(out, ' ');
        }
        index = index + 1;
        assert(out@ =~= before_cells + hex_cells(chunk, index as nat));
    }

    push_char(out, ' ');
    let ghost before_text = out@;

    let mut index: usize = 0;
    while index < chunk_len
        invariant
            index <= chunk_len,
            start + chunk_len <= n,
            n == bytes@.len(),
            chunk == bytes@.subrange(start as int, start + chunk_len),
            out@ == before_text + text_column(chunk.take(index as int)),
        decreases chunk_len - index,
    {
        let byte = bytes[start + index];
        let shown = if (0x21 <= byte && byte <= 0x7e) || byte == 0x20 {
            byte as char
        } else {
            '.'
        };
        push_char(out, shown);
        index = index + 1;
        assert(chunk.take(index as int) =~= chunk.take(index - 1).push(byte));
        assert(out@ =~= before_text + text_column(chunk.take(index as int)));
    }
    assert(chunk.take(chunk_len as int) =~= chunk);
    assert(out@ =~= line_start + dump_line(start as nat, chunk));
}

/// Formats `bytes` as a hex dump: for each run of sixteen bytes a line with
/// the offset in four hex digits, the bytes in hex and the bytes as text.
pub fn format_hex_dump(bytes: &[u8]) -> (dump: String)
    ensures
        dump@ == hex_dump(bytes@),
{
    let ghost b = bytes@;
    let n = bytes.len();
    let mut output = String::new();
    let mut start: usize = 0;
    let mut line: usize = 0;
    while start < n
        invariant
            n == b.len(),
            b == bytes@,
            start <= n,
            start % 16 == 0 || start == n,
            start < n ==> start == BYTES_PER_LINE * line,
            line == (start + 15) / 16,
            output@ == dump_lines(b, line as nat),
        decreases n - start,
    {
        let chunk_len: usize = if n - start >= BYTES_PER_LINE {
            BYTES_PER_LINE
        } else {
            n - start
        };
        assert(line_chunk(b, line as nat) =~= b.subrange(start as int, start + chunk_len));
        push_dump_line(&mut output, bytes, start, chunk_len);
        if start + chunk_len < n {
            push_char(&mut output, '\n');
        }
        assert(output@ =~= dump_lines(b, (line + 1) as nat));
        start = start + chunk_len;
        line = line + 1;
    }
    output
}


// ---------------------------------------------------------------------------
// Laws of the dump
// ---------------------------------------------------------------------------

/// Number of newlines in `s`.
pub open spec fn newline_count(s: Seq<char>) -> nat
    decreases s.len(),
{
    if s.len() == 0 {
        0
    } else {
        newline_count(s.drop_last()) + if s.last() == '\n' {
            1nat
        } else {
            0
        }
    }
}

/// Whether `s` holds no newline.
pub open spec fn no_newline(s: Seq<char>) -> bool {
    forall|i: int| 0 <= i < s.len() ==> s[i] != '\n'
}

proof fn lemma_newline_count_concat(a: Seq<char>, b: Seq<char>)
    ensures
        newline_count(a + b) == newline_count(a) + newline_count(b),
    decreases b.len(),
{
    if b.len() > 0 {
        assert((a + b).drop_last() =~= a + b.drop_last());
        lemma_newline_count_concat(a, b.drop_last());
    } else {
        assert(a + b =~= a);
    }
}

proof fn lemma_no_newline_count(s: Seq<char>)
    requires
        no_newline(s),
    ensures
        newline_count(s) == 0,
    decreases s.len(),
{
    if s.len() > 0 {
        lemma_no_newline_count(s.drop_last());
    }
}

proof fn lemma_hex_digits_no_newline(n: nat)
    ensures
        no_newline(hex_digits(n)),
    decreases n,
{
    if n >= 16 {
        lemma_hex_digits_no_newline(n / 16);
    }
}

proof fn lemma_hex_padded_no_newline(n: nat, width: nat)
    ensures
        no_newline(hex_padded(n, width)),
{
    lemma_hex_digits_no_newline(n);
}

proof fn lemma_hex_cells_no_newline(chunk: Seq<u8>, k: nat)
    ensures
        no_newline(hex_cells(chunk, k)),
    decreases k,
{
    if k > 0 {
        lemma_hex_cells_no_newline(chunk, (k - 1) as nat);
        if k - 1 < chunk.len() {
            lemma_hex_padded_no_newline(chunk[k - 1] as nat, 2);
        }
    }
}

proof fn lemma_dump_line_no_newline(offset: nat, chunk: Seq<u8>)
    ensures
        no_newline(dump_line(offset, chunk)),
        dump_line(offset, chunk).len() > 0,
{
    lemma_hex_padded_no_newline(offset, 4);
    lemma_hex_cells_no_newline(chunk, BYTES_PER_LINE as nat);
    assert forall|i: int| 0 <= i < chunk.len() implies #[trigger] text_column(chunk)[i] != '\n' by {
        assert(text_column(chunk)[i] == shown_char(chunk[i]));
    }
}

proof fn lemma_dump_lines_newlines(bytes: Seq<u8>, n: nat)
    requires
        n <= line_count(bytes),
    ensures
        newline_count(dump_lines(bytes, n)) == if n < line_count(bytes) {
            n
        } else if n == 0 {
            0
        } else {
            (n - 1) as nat
        },
    decreases n,
{
    if n > 0 {
        let line = (n - 1) as nat;
        let chunk = line_chunk(bytes, line);
        let offset = (BYTES_PER_LINE * line) as nat;
        lemma_dump_lines_newlines(bytes, line);
        lemma_dump_line_no_newline(offset, chunk);
        lemma_no_newline_count(dump_line(offset, chunk));
        let tail: Seq<char> = if offset + chunk.len() < bytes.len() {
            seq!['\n']
        } else {
            Seq::empty()
        };
        assert(newline_count(seq!['\n']) == 1) by {
            reveal_with_fuel(newline_count, 2);
            assert(seq!['\n'].drop_last() =~= Seq::<char>::empty());
        }
        lemma_newline_count_concat(dump_lines(bytes, line), dump_line(offset, chunk));
        lemma_newline_count_concat(dump_lines(bytes, line) + dump_line(offset, chunk), tail);
    }
}

proof fn lemma_dump_lines_prefix(bytes: Seq<u8>, m: nat, n: nat)
    requires
        m <= n,
    ensures
        dump_lines(bytes, m).len() <= dump_lines(bytes, n).len(),
        dump_lines(bytes, n).take(dump_lines(bytes, m).len() as int) == dump_lines(bytes, m),
    decreases n,
{
    if m < n {
        lemma_dump_lines_prefix(bytes, m, (n - 1) as nat);
        let prev = dump_lines(bytes, (n - 1) as nat);
        assert(dump_lines(bytes, n).take(prev.len() as int) =~= prev);
        assert(dump_lines(bytes, n).take(dump_lines(bytes, m).len() as int) =~= prev.take(
            dump_lines(bytes, m).len() as int,
        ));
    } else {
        assert(dump_lines(bytes, n).take(dump_lines(bytes, n).len() as int) =~= dump_lines(bytes, n));
    }
}

/// The dump of a non-empty byte string has one line per sixteen bytes
/// (the last one possibly shorter), separated by newlines, with none at
/// the end.
pub proof fn lemma_hex_dump_lines(bytes: Seq<u8>)
    requires
        bytes.len() > 0,
    ensures
        hex_dump(bytes).len() > 0,
        newline_count(hex_dump(bytes)) == line_count(bytes) - 1,
        hex_dump(bytes).last() != '\n',
{
    let n = line_count(bytes);
    lemma_dump_lines_newlines(bytes, n);
    let line = (n - 1) as nat;
    let chunk = line_chunk(bytes, line);
    let offset = (BYTES_PER_LINE * line) as nat;
    lemma_dump_line_no_newline(offset, chunk);
    assert(offset + chunk.len() == bytes.len());
    let d = dump_line(offset, chunk);
    assert(hex_dump(bytes) =~= dump_lines(bytes, line) + d);
    assert(hex_dump(bytes).last() == d.last());
}

proof fn lemma_dump_lines_of_prefix(a: Seq<u8>, b: Seq<u8>, n: nat)
    requires
        a.len() % 16 == 0,
        b.len() > 0,
        n <= line_count(a),
    ensures
        n < line_count(a) ==> dump_lines(a + b, n) == dump_lines(a, n),
        n == line_count(a) && n > 0 ==> dump_lines(a + b, n) == dump_lines(a, n).push('\n'),
    decreases n,
{
    if n > 0 {
        let line = (n - 1) as nat;
        lemma_dump_lines_of_prefix(a, b, line);
        assert(line_chunk(a + b, line) =~= line_chunk(a, line));
    }
}

/// The dump of `a` followed by `b`, where `a` fills whole lines, starts with
/// the dump of `a` and a newline.
pub proof fn lemma_hex_dump_concat(a: Seq<u8>, b: Seq<u8>)
    requires
        a.len() > 0,
        a.len() % 16 == 0,
        b.len() > 0,
    ensures
        hex_dump(a).len() < hex_dump(a + b).len(),
        hex_dump(a + b).take(hex_dump(a).len() + 1int) == hex_dump(a).push('\n'),
{
    let la = line_count(a);
    lemma_dump_lines_of_prefix(a, b, la);
    lemma_dump_lines_prefix(a + b, la, line_count(a + b));
    assert(hex_dump(a + b).take(hex_dump(a).len() + 1int) =~= dump_lines(a + b, la));
}


/// The lower-case hexadecimal digit character for `d` (below 16): '0' to
/// '9', then 'a' to 'f'.
pub open spec fn lower_hex_char(d: int) -> char {
    if d < 10 {
        (d + 48) as char
    } else {
        (d - 10 + 97) as char
    }
}

/// The text-column character for byte `b`.
pub open spec fn printable_or_dot(b: u8) -> char {
    if 0x20 <= b && b <= 0x7e {
        b as char
    } else {
        '.'
    }
}

proof fn lemma_hex_two_digits(b: nat)
    requires
        b < 256,
    ensures
        hex_padded(b, 2) == seq![lower_hex_char(b as int / 16), lower_hex_char(b as int % 16)],
{
    if b >= 16 {
        assert(hex_digits(b / 16) == seq![hex_digit(b / 16)]);
    }
    assert(hex_padded(b, 2) =~= seq![lower_hex_char(b as int / 16), lower_hex_char(b as int % 16)]);
}

proof fn lemma_hex_four_digits(n: nat)
    requires
        n < 0x10000,
    ensures
        hex_padded(n, 4) == seq![
            lower_hex_char(n as int / 4096),
            lower_hex_char(n as int / 256 % 16),
            lower_hex_char(n as int / 16 % 16),
            lower_hex_char(n as int % 16),
        ],
{
    let n1 = n / 16;
    let n2 = n1 / 16;
    let n3 = n2 / 16;
    vstd::arithmetic::div_mod::lemma_div_denominator(n as int, 16, 16);
    vstd::arithmetic::div_mod::lemma_div_denominator(n as int, 256, 16);
    assert(n2 == n / 256);
    assert(n3 == n / 4096);
    if n < 16 {
    } else if n < 256 {
        assert(hex_digits(n1) =~= seq![hex_digit(n1)]);
        assert(hex_digits(n) =~= seq![hex_digit(n1), hex_digit(n % 16)]);
    } else if n < 4096 {
        assert(n1 >= 16 && n2 < 16);
        assert(hex_digits(n2) =~= seq![hex_digit(n2)]);
        assert(hex_digits(n1) =~= seq![hex_digit(n2), hex_digit(n1 % 16)]);
        assert(hex_digits(n) =~= seq![hex_digit(n2), hex_digit(n1 % 16), hex_digit(n % 16)]);
    } else {
        assert(n1 >= 16 && n2 >= 16 && n3 < 16);
        assert(hex_digits(n3) =~= seq![hex_digit(n3)]);
        assert(hex_digits(n2) =~= seq![hex_digit(n3), hex_digit(n2 % 16)]);
        assert(hex_digits(n1) =~= seq![hex_digit(n3), hex_digit(n2 % 16), hex_digit(n1 % 16)]);
        assert(hex_digits(n) =~= seq![
            hex_digit(n3),
            hex_digit(n2 % 16),
            hex_digit(n1 % 16),
            hex_digit(n % 16),
        ]);
    }
    assert(hex_padded(n, 4) =~= seq![
        lower_hex_char(n as int / 4096),
        lower_hex_char(n as int / 256 % 16),
        lower_hex_char(n as int / 16 % 16),
        lower_hex_char(n as int % 16),
    ]);
}

proof fn lemma_hex_cells_digits(chunk: Seq<u8>, k: nat)
    requires
        k <= 16,
    ensures
        hex_cells(chunk, k).len() == 3 * k,
        forall|j: int|
            0 <= j < k && j < chunk.len() ==> {
                &&& #[trigger] hex_cells(chunk, k)[3 * j] == lower_hex_char(chunk[j] as int / 16)
                &&& hex_cells(chunk, k)[3 * j + 1] == lower_hex_char(chunk[j] as int % 16)
                &&& hex_cells(chunk, k)[3 * j + 2] == ' '
            },
    decreases k,
{
    if k > 0 {
        let j0 = k - 1;
        lemma_hex_cells_digits(chunk, (k - 1) as nat);
        let prev = hex_cells(chunk, (k - 1) as nat);
        let cells = hex_cells(chunk, k);
        if j0 < chunk.len() {
            lemma_hex_two_digits(chunk[j0] as nat);
            assert(cells =~= prev + hex_padded(chunk[j0] as nat, 2).push(' '));
        } else {
            assert(cells =~= prev + seq![' ', ' ', ' ']);
        }
        assert forall|j: int| 0 <= j < k && j < chunk.len() implies {
            &&& #[trigger] hex_cells(chunk, k)[3 * j] == lower_hex_char(chunk[j] as int / 16)
            &&& hex_cells(chunk, k)[3 * j + 1] == lower_hex_char(chunk[j] as int % 16)
            &&& hex_cells(chunk, k)[3 * j + 2] == ' '
        } by {
            if j < j0 {
                assert(cells[3 * j] == prev[3 * j]);
                assert(cells[3 * j + 1] == prev[3 * j + 1]);
                assert(cells[3 * j + 2] == prev[3 * j + 2]);
            } else {
                let tail = seq![
                    lower_hex_char(chunk[j] as int / 16),
                    lower_hex_char(chunk[j] as int % 16),
                    ' ',
                ];
                assert(cells =~= prev + tail);
                assert(prev.len() == 3 * j);
                assert(cells[3 * j] == tail[0]);
                assert(cells[3 * j + 1] == tail[1]);
                assert(cells[3 * j + 2] == tail[2]);
            }
        }
    }
}

proof fn lemma_hex_cells_spaces(chunk: Seq<u8>, k: nat)
    requires
        k <= 16,
    ensures
        hex_cells(chunk, k).len() == 3 * k,
        forall|j: int|
            0 <= j < k && chunk.len() <= j ==> {
                &&& #[trigger] hex_cells(chunk, k)[3 * j] == ' '
                &&& hex_cells(chunk, k)[3 * j + 1] == ' '
                &&& hex_cells(chunk, k)[3 * j + 2] == ' '
            },
    decreases k,
{
    if k > 0 {
        let j0 = k - 1;
        lemma_hex_cells_spaces(chunk, (k - 1) as nat);
        let prev = hex_cells(chunk, (k - 1) as nat);
        let cells = hex_cells(chunk, k);
        if j0 < chunk.len() {
            lemma_hex_two_digits(chunk[j0] as nat);
            assert(cells =~= prev + hex_padded(chunk[j0] as nat, 2).push(' '));
        } else {
            assert(cells =~= prev + seq![' ', ' ', ' ']);
        }
        assert forall|j: int| 0 <= j < k && chunk.len() <= j implies {
            &&& #[trigger] hex_cells(chunk, k)[3 * j] == ' '
            &&& hex_cells(chunk, k)[3 * j + 1] == ' '
            &&& hex_cells(chunk, k)[3 * j + 2] == ' '
        } by {
            if j < j0 {
                assert(cells[3 * j] == prev[3 * j]);
                assert(cells[3 * j + 1] == prev[3 * j + 1]);
                assert(cells[3 * j + 2] == prev[3 * j + 2]);
            } else {
                let tail = seq![' ', ' ', ' '];
                assert(cells =~= prev + tail);
                assert(prev.len() == 3 * j);
                assert(cells[3 * j] == tail[0]);
                assert(cells[3 * j + 1] == tail[1]);
                assert(cells[3 * j + 2] == tail[2]);
            }
        }
    }
}

/// The text column of every dump line: its last characters are the line's
/// bytes, each shown as itself when it is in 0x20..=0x7e and as '.'
/// otherwise.
pub proof fn lemma_dump_line_text(offset: nat, chunk: Seq<u8>)
    ensures
        dump_line(offset, chunk).len() >= chunk.len(),
        forall|j: int|
            0 <= j < chunk.len() ==> #[trigger] dump_line(offset, chunk)[dump_line(
                offset,
                chunk,
            ).len() - chunk.len() + j] == printable_or_dot(chunk[j]),
{
    let line = dump_line(offset, chunk);
    let head = hex_padded(offset, 4) + seq![':', ' '] + hex_cells(chunk, BYTES_PER_LINE as nat)
        + seq![' '];
    assert(line == head + text_column(chunk));
    assert forall|j: int| 0 <= j < chunk.len() implies #[trigger] line[line.len() - chunk.len()
        + j] == printable_or_dot(chunk[j]) by {
        assert(line[head.len() + j] == text_column(chunk)[j]);
    }
}

/// The layout of a dump line whose offset has at most four hex digits:
/// the offset in four lower-case hex digits, ": ", for each of sixteen
/// columns the byte in two lower-case hex digits and a space (three spaces
/// past the last byte), one more space, then the text column.
pub proof fn lemma_dump_line_layout(offset: nat, chunk: Seq<u8>)
    requires
        offset < 0x10000,
        chunk.len() <= 16,
    ensures
        dump_line(offset, chunk).len() == 55 + chunk.len(),
        dump_line(offset, chunk)[0] == lower_hex_char(offset as int / 4096),
        dump_line(offset, chunk)[1] == lower_hex_char(offset as int / 256 % 16),
        dump_line(offset, chunk)[2] == lower_hex_char(offset as int / 16 % 16),
        dump_line(offset, chunk)[3] == lower_hex_char(offset as int % 16),
        dump_line(offset, chunk)[4] == ':',
        dump_line(offset, chunk)[5] == ' ',
        forall|j: int|
            0 <= j < chunk.len() ==> {
                &&& #[trigger] dump_line(offset, chunk)[6 + 3 * j] == lower_hex_char(
                    chunk[j] as int / 16,
                )
                &&& dump_line(offset, chunk)[7 + 3 * j] == lower_hex_char(chunk[j] as int % 16)
                &&& dump_line(offset, chunk)[8 + 3 * j] == ' '
            },
        forall|j: int|
            chunk.len() <= j < 16 ==> {
                &&& #[trigger] dump_line(offset, chunk)[6 + 3 * j] == ' '
                &&& dump_line(offset, chunk)[7 + 3 * j] == ' '
                &&& dump_line(offset, chunk)[8 + 3 * j] == ' '
            },
        dump_line(offset, chunk)[54] == ' ',
        forall|j: int|
            0 <= j < chunk.len() ==> #[trigger] dump_line(offset, chunk)[55 + j]
                == printable_or_dot(chunk[j]),
{
    let line = dump_line(offset, chunk);
    lemma_hex_four_digits(offset);
    lemma_hex_cells_digits(chunk, 16);
    lemma_hex_cells_spaces(chunk, 16);
    let cells = hex_cells(chunk, 16);
    let head = hex_padded(offset, 4) + seq![':', ' '];
    assert(line == head + cells + seq![' '] + text_column(chunk));
    assert(head.len() == 6);
    assert forall|j: int| 0 <= j < chunk.len() implies {
        &&& #[trigger] line[6 + 3 * j] == lower_hex_char(chunk[j] as int / 16)
        &&& line[7 + 3 * j] == lower_hex_char(chunk[j] as int % 16)
        &&& line[8 + 3 * j] == ' '
    } by {
        assert(line[6 + 3 * j] == cells[3 * j]);
        assert(line[7 + 3 * j] == cells[3 * j + 1]);
        assert(line[8 + 3 * j] == cells[3 * j + 2]);
    }
    assert forall|j: int| chunk.len() <= j < 16 implies {
        &&& #[trigger] line[6 + 3 * j] == ' '
        &&& line[7 + 3 * j] == ' '
        &&& line[8 + 3 * j] == ' '
    } by {
        assert(line[6 + 3 * j] == cells[3 * j]);
        assert(line[7 + 3 * j] == cells[3 * j + 1]);
        assert(line[8 + 3 * j] == cells[3 * j + 2]);
    }
    assert forall|j: int| 0 <= j < chunk.len() implies #[trigger] line[55 + j] == printable_or_dot(
        chunk[j],
    ) by {
        assert(line[55 + j] == text_column(chunk)[j]);
    }
}


proof fn lemma_dump_lines_len(bytes: Seq<u8>, n: nat)
    requires
        n <= line_count(bytes),
        bytes.len() <= 0x10000,
    ensures
        n < line_count(bytes) ==> dump_lines(bytes, n).len() == 72 * n,
        n == line_count(bytes) && n > 0 ==> dump_lines(bytes, n).len() == 72 * (n - 1) + 55
            + bytes.len() - 16 * (n - 1),
    decreases n,
{
    if n > 0 {
        let line = (n - 1) as nat;
        lemma_dump_lines_len(bytes, line);
        let chunk = line_chunk(bytes, line);
        lemma_dump_line_layout((BYTES_PER_LINE * line) as nat, chunk);
    }
}

proof fn lemma_dump_line_in_dump(bytes: Seq<u8>, line: nat)
    requires
        line < line_count(bytes),
        bytes.len() <= 0x10000,
    ensures
        72 * line + dump_line(16 * line, line_chunk(bytes, line)).len() <= hex_dump(bytes).len(),
        forall|x: int|
            0 <= x < dump_line(16 * line, line_chunk(bytes, line)).len() ==> #[trigger] hex_dump(
                bytes,
            )[72 * line + x] == dump_line(16 * line, line_chunk(bytes, line))[x],
        line + 1 < line_count(bytes) ==> hex_dump(bytes)[(72 * line + 71) as int] == '\n',
{
    let lc = line_count(bytes);
    lemma_dump_lines_len(bytes, line);
    lemma_dump_lines_prefix(bytes, line + 1, lc);
    let before = dump_lines(bytes, line);
    let chunk = line_chunk(bytes, line);
    let d = dump_line(16 * line, chunk);
    lemma_dump_line_layout(16 * line, chunk);
    let upto = dump_lines(bytes, line + 1);
    let nl: Seq<char> = if 16 * line + chunk.len() < bytes.len() {
        seq!['\n']
    } else {
        Seq::empty()
    };
    assert(upto == before + d + nl);
    assert forall|x: int| 0 <= x < d.len() implies #[trigger] hex_dump(bytes)[72 * line + x]
        == d[x] by {
        assert(hex_dump(bytes)[72 * line + x] == upto[72 * line + x]);
    }
    if line + 1 < lc {
        assert(chunk.len() == 16);
        assert(hex_dump(bytes)[(72 * line + 71) as int] == upto[(72 * line + 71) as int]);
    }
}

/// Where each byte appears in the dump of at most 0x10000 bytes: line
/// `i / 16` starts at character `72 * (i / 16)` with the four-digit offset and
/// ": "; the byte's two lower-case hex digits and a space stand at column
/// `6 + 3 * (i % 16)` and its text character at column `55 + i % 16`; each
/// line but the last ends with a newline at column 71.
pub proof fn lemma_hex_dump_positions(bytes: Seq<u8>)
    requires
        bytes.len() <= 0x10000,
    ensures
        bytes.len() == 0 ==> hex_dump(bytes).len() == 0,
        bytes.len() > 0 ==> hex_dump(bytes).len() == 72 * (line_count(bytes) - 1) + 55
            + bytes.len() - 16 * (line_count(bytes) - 1),
        forall|i: int|
            0 <= i < bytes.len() ==> {
                &&& hex_dump(bytes)[72 * (i / 16) + 6 + 3 * (i % 16)] == lower_hex_char(
                    #[trigger] bytes[i] as int / 16,
                )
                &&& hex_dump(bytes)[72 * (i / 16) + 7 + 3 * (i % 16)] == lower_hex_char(
                    bytes[i] as int % 16,
                )
                &&& hex_dump(bytes)[72 * (i / 16) + 8 + 3 * (i % 16)] == ' '
                &&& hex_dump(bytes)[72 * (i / 16) + 55 + i % 16] == printable_or_dot(bytes[i])
            },
        forall|line: int|
            0 <= line < line_count(bytes) ==> {
                &&& #[trigger] hex_dump(bytes)[72 * line] == lower_hex_char(16 * line / 4096)
                &&& hex_dump(bytes)[72 * line + 1] == lower_hex_char(16 * line / 256 % 16)
                &&& hex_dump(bytes)[72 * line + 2] == lower_hex_char(16 * line / 16 % 16)
                &&& hex_dump(bytes)[72 * line + 3] == lower_hex_char(16 * line % 16)
                &&& hex_dump(bytes)[72 * line + 4] == ':'
                &&& hex_dump(bytes)[72 * line + 5] == ' '
                &&& line + 1 < line_count(bytes) ==> hex_dump(bytes)[72 * line + 71] == '\n'
            },
{
    let lc = line_count(bytes);
    lemma_dump_lines_len(bytes, lc);
    assert forall|i: int| 0 <= i < bytes.len() implies {
        &&& hex_dump(bytes)[72 * (i / 16) + 6 + 3 * (i % 16)] == lower_hex_char(
            #[trigger] bytes[i] as int / 16,
        )
        &&& hex_dump(bytes)[72 * (i / 16) + 7 + 3 * (i % 16)] == lower_hex_char(
            bytes[i] as int % 16,
        )
        &&& hex_dump(bytes)[72 * (i / 16) + 8 + 3 * (i % 16)] == ' '
        &&& hex_dump(bytes)[72 * (i / 16) + 55 + i % 16] == printable_or_dot(bytes[i])
    } by {
        let line = (i / 16) as nat;
        let j = i % 16;
        lemma_dump_line_in_dump(bytes, line);
        let chunk = line_chunk(bytes, line);
        lemma_dump_line_layout(16 * line, chunk);
        assert(chunk[j] == bytes[i]);
        let d = dump_line(16 * line, chunk);
        assert(hex_dump(bytes)[72 * line + (6 + 3 * j)] == d[6 + 3 * j]);
        assert(hex_dump(bytes)[72 * line + (7 + 3 * j)] == d[7 + 3 * j]);
        assert(hex_dump(bytes)[72 * line + (8 + 3 * j)] == d[8 + 3 * j]);
        assert(hex_dump(bytes)[72 * line + (55 + j)] == d[55 + j]);
    }
    assert forall|line: int| 0 <= line < lc implies {
        &&& #[trigger] hex_dump(bytes)[72 * line] == lower_hex_char(16 * line / 4096)
        &&& hex_dump(bytes)[72 * line + 1] == lower_hex_char(16 * line / 256 % 16)
        &&& hex_dump(bytes)[72 * line + 2] == lower_hex_char(16 * line / 16 % 16)
        &&& hex_dump(bytes)[72 * line + 3] == lower_hex_char(16 * line % 16)
        &&& hex_dump(bytes)[72 * line + 4] == ':'
        &&& hex_dump(bytes)[72 * line + 5] == ' '
        &&& line + 1 < lc ==> hex_dump(bytes)[72 * line + 71] == '\n'
    } by {
        let l = line as nat;
        lemma_dump_line_in_dump(bytes, l);
        let chunk = line_chunk(bytes, l);
        lemma_dump_line_layout(16 * l, chunk);
        let d = dump_line(16 * l, chunk);
        assert(hex_dump(bytes)[72 * line + 0] == d[0]);
        assert(hex_dump(bytes)[72 * line + 1] == d[1]);
        assert(hex_dump(bytes)[72 * line + 2] == d[2]);
        assert(hex_dump(bytes)[72 * line + 3] == d[3]);
        assert(hex_dump(bytes)[72 * line + 4] == d[4]);
        assert(hex_dump(bytes)[72 * line + 5] == d[5]);
    }
}

} // verus!
