//! The booth's buttons: two GPIO buttons on the board, and a button box that
//! reports presses as lines `1` or `2` over a serial port.
use vstd::prelude::*;

verus! {

/// GPIO pin of the first button.
pub const BUTTON1_PIN: u8 = 2;

/// GPIO pin of the second button.
pub const BUTTON2_PIN: u8 = 3;

/// Debounce time of the GPIO buttons, in milliseconds.
pub const DEBOUNCE_MS: u64 = 100;

/// The button number that a falling edge on `pin` reports.
pub fn button_for_pin(pin: u8) -> (b: Option<i32>)
    ensures
        pin == BUTTON1_PIN ==> b == Some(1i32),
        pin == BUTTON2_PIN ==> b == Some(2i32),
        pin != BUTTON1_PIN && pin != BUTTON2_PIN ==> b is None,
{
    if pin == BUTTON1_PIN {
        Some(1)
    } else if pin == BUTTON2_PIN {
        Some(2)
    } else {
        None
    }
}

/// `c` has the Unicode `White_Space` property, as `char::is_whitespace` says.
pub open spec fn is_white_space(c: char) -> bool {
    ||| '\u{9}' <= c <= '\u{d}'
    ||| c == ' '
    ||| c == '\u{85}'
    ||| c == '\u{a0}'
    ||| c == '\u{1680}'
    ||| '\u{2000}' <= c <= '\u{200a}'
    ||| c == '\u{2028}'
    ||| c == '\u{2029}'
    ||| c == '\u{202f}'
    ||| c == '\u{205f}'
    ||| c == '\u{3000}'
}

fn white_space(c: char) -> (b: bool)
    ensures
        b == is_white_space(c),
{
    ('\u{9}' <= c && c <= '\u{d}') || c == ' ' || c == '\u{85}' || c == '\u{a0}' || c == '\u{1680}'
        || ('\u{2000}' <= c && c <= '\u{200a}') || c == '\u{2028}' || c == '\u{2029}' || c
        == '\u{202f}' || c == '\u{205f}' || c == '\u{3000}'
}

/// `s` without its leading white space.
pub open spec fn trim_start(s: Seq<char>) -> Seq<char>
    decreases s.len(),
{
    if s.len() > 0 && is_white_space(s[0]) {
        trim_start(s.drop_first())
    } else {
        s
    }
}

/// `s` without its trailing white space.
pub open spec fn trim_end(s: Seq<char>) -> Seq<char>
    decreases s.len(),
{
    if s.len() > 0 && is_white_space(s.last()) {
        trim_end(s.drop_last())
    } else {
        s
    }
}

/// `s` without white space at either end: what `str::trim` gives.
pub open spec fn trimmed(s: Seq<char>) -> Seq<char> {
    trim_end(trim_start(s))
}

/// The first and one past the last character of `line` that are not white
/// space; the text between them is `trimmed(line)`.
fn trim_bounds(line: &str) -> (r: (usize, usize))
    ensures
        r.0 <= r.1 <= line@.len(),
        trimmed(line@) == line@.subrange(r.0 as int, r.1 as int),
{
    let n = line.unicode_len();
    let mut a: usize = 0;
    assert(line@.skip(0) =~= line@);
    while a < n && white_space(line.get_char(a))
        invariant
            a <= n,
            n == line@.len(),
            trim_start(line@) == trim_start(line@.skip(a as int)),
        decreases n - a,
    {
        assert(line@.skip(a as int).drop_first() =~= line@.skip(a + 1));
        a = a + 1;
    }
    let mut b: usize = n;
    while b > a && white_space(line.get_char(b - 1))
        invariant
            a <= b <= n,
            n == line@.len(),
            trim_end(line@.skip(a as int)) == trim_end(line@.subrange(a as int, b as int)),
        decreases b - a,
    {
        assert(line@.subrange(a as int, b as int).drop_last() =~= line@.subrange(a as int, b - 1));
        b = b - 1;
    }
    assert(line@.skip(a as int) =~= line@.subrange(a as int, n as int));
    (a, b)
}

/// The button that a line from the button box reports: `1` or `2` once
/// white space is trimmed off, anything else none.
pub open spec fn line_button(line: Seq<char>) -> Option<i32> {
    if trimmed(line) == seq!['1'] {
        Some(1i32)
    } else if trimmed(line) == seq!['2'] {
        Some(2i32)
    } else {
        None
    }
}

/// Reads a line from the button box.
pub fn button_for_line(line: &str) -> (b: Option<i32>)
    ensures
        b == line_button(line@),
{
    let (a, e) = trim_bounds(line);
    assert(trimmed(line@).len() == e - a);
    if e - a == 1 {
        let c = line.get_char(a);
        assert(line@.subrange(a as int, e as int) =~= seq![c]);
        assert(trimmed(line@)[0] == c);
        assert(seq!['1'][0] == '1' && seq!['2'][0] == '2');
        if c == '1' {
            Some(1)
        } else if c == '2' {
            Some(2)
        } else {
            None
        }
    } else {
        assert(trimmed(line@) != seq!['1']);
        assert(trimmed(line@) != seq!['2']);
        None
    }
}

/// Every character of `x` is white space.
pub open spec fn all_white_space(x: Seq<char>) -> bool {
    forall|i: int| 0 <= i < x.len() ==> is_white_space(#[trigger] x[i])
}

proof fn lemma_trim_end_ignores_white_tail(u: Seq<char>, x: Seq<char>)
    requires
        all_white_space(x),
    ensures
        trim_end(u + x) == trim_end(u),
    decreases x.len(),
{
    if x.len() == 0 {
        assert(u + x =~= u);
    } else {
        assert((u + x).last() == x.last());
        assert((u + x).drop_last() =~= u + x.drop_last());
        lemma_trim_end_ignores_white_tail(u, x.drop_last());
    }
}

proof fn lemma_trim_start_all_white(x: Seq<char>)
    requires
        all_white_space(x),
    ensures
        trim_start(x) == Seq::<char>::empty(),
    decreases x.len(),
{
    if x.len() > 0 {
        lemma_trim_start_all_white(x.drop_first());
    } else {
        assert(x =~= Seq::<char>::empty());
    }
}

proof fn lemma_trim_start_append_white(s: Seq<char>, x: Seq<char>)
    requires
        all_white_space(x),
    ensures
        trim_start(s).len() > 0 ==> trim_start(s + x) == trim_start(s) + x,
        trim_start(s).len() == 0 ==> trim_start(s + x) == Seq::<char>::empty(),
    decreases s.len(),
{
    if s.len() == 0 {
        assert(s + x =~= x);
        lemma_trim_start_all_white(x);
    } else {
        assert((s + x)[0] == s[0]);
        if is_white_space(s[0]) {
            assert((s + x).drop_first() =~= s.drop_first() + x);
            lemma_trim_start_append_white(s.drop_first(), x);
        }
    }
}

/// White space after a line, such as the `\r\n` that ends lines on a serial
/// port, does not change the button it reports.
pub proof fn lemma_line_button_ignores_line_end(line: Seq<char>, end: Seq<char>)
    requires
        all_white_space(end),
    ensures
        line_button(line + end) == line_button(line),
        trimmed(line + end) == trimmed(line),
{
    lemma_trim_start_append_white(line, end);
    if trim_start(line).len() > 0 {
        lemma_trim_end_ignores_white_tail(trim_start(line), end);
    }
}

/// How a read from the serial port ended.
#[derive(Clone, Copy, Debug, PartialEq, Eq)]
pub enum SerialRead {
    /// A line of this many bytes was read.
    Bytes(usize),
    /// Nothing arrived before the timeout.
    TimedOut,
    /// Reading failed otherwise.
    Failed,
}

/// What to do after a read from the serial port.
#[derive(Clone, Copy, Debug, PartialEq, Eq)]
pub enum SerialAction {
    /// Report a press of this button.
    Press(i32),
    /// Warn about a line that names no button.
    Unexpected,
    /// Read again.
    ReadAgain,
    /// Report the error and stop listening.
    Stop,
}

/// The decision after a read that ended as `read` with `line` in the buffer:
/// a line reports its button or is warned about, an empty read or a timeout
/// reads again, a failure stops.
pub fn serial_action(read: SerialRead, line: &str) -> (a: SerialAction)
    ensures
        match read {
            SerialRead::Bytes(n) => if n == 0 {
                a == SerialAction::ReadAgain
            } else {
                match line_button(line@) {
                    Some(b) => a == SerialAction::Press(b),
                    None => a == SerialAction::Unexpected,
                }
            },
            SerialRead::TimedOut => a == SerialAction::ReadAgain,
            SerialRead::Failed => a == SerialAction::Stop,
        },
{
    match read {
        SerialRead::Bytes(n) => {
            if n == 0 {
                SerialAction::ReadAgain
            } else {
                match button_for_line(line) {
                    Some(b) => SerialAction::Press(b),
                    None => SerialAction::Unexpected,
                }
            }
        },
        SerialRead::TimedOut => SerialAction::ReadAgain,
        SerialRead::Failed => SerialAction::Stop,
    }
}

} // verus!
