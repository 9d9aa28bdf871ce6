//! The decisions of the kernel's temporary shell: editing the command line as its bytes arrive,
//! splitting it into words and telling which command it asks for, and reading the time of day that
//! the `time` command sets.

use vstd::prelude::*;
use vstd::utf8::valid_utf8;
use crate::ffi::str_from_utf8;

verus! {

/// The most bytes a command line holds.
pub const LINE_CAPACITY: usize = 256;

/// What the shell does with a byte that arrives while a command line is being typed.
#[derive(Debug, Clone, Copy, PartialEq, Eq, Structural)]
pub enum LineEvent {
    /// The byte was added to the line: echo it.
    Echo,
    /// The last character was erased: echo the byte (a backspace).
    Erase,
    /// The line is complete: end it.
    Submit,
    /// Nothing changes.
    Ignore,
}

/// The length of the longest prefix of `s` no longer than `k` bytes that is valid UTF-8.
pub open spec fn boundary_at_or_before(s: Seq<u8>, k: int) -> int
    decreases k,
{
    if k <= 0 {
        0
    } else if valid_utf8(s.subrange(0, k)) {
        k
    } else {
        boundary_at_or_before(s, k - 1)
    }
}

/// The line and the event after the byte `b` arrives at the line `s`. Between characters, a
/// backspace or delete erases the last character and a carriage return submits the line; other
/// control characters are dropped. Every other byte is stored while there is room.
pub open spec fn feed_spec(s: Seq<u8>, b: u8) -> (Seq<u8>, LineEvent) {
    let boundary = valid_utf8(s);
    if boundary && (b == 8 || b == 0x7f) {
        if s.len() > 0 {
            (s.subrange(0, boundary_at_or_before(s, s.len() - 1)), LineEvent::Erase)
        } else {
            (s, LineEvent::Ignore)
        }
    } else if boundary && b == 13 {
        (s, LineEvent::Submit)
    } else if !boundary || b >= 32 {
        if s.len() < LINE_CAPACITY {
            (s.push(b), LineEvent::Echo)
        } else {
            (s, LineEvent::Ignore)
        }
    } else {
        (s, LineEvent::Ignore)
    }
}

/// A command line being typed.
#[derive(Debug)]
pub struct LineEditor {
    bytes: Vec<u8>,
}

impl View for LineEditor {
    type V = Seq<u8>;

    /// The bytes of the line so far.
    closed spec fn view(&self) -> Seq<u8> {
        self.bytes@
    }
}

impl LineEditor {
    /// Whether the line fits in the shell's buffer.
    pub open spec fn wf(&self) -> bool {
        self@.len() <= LINE_CAPACITY
    }

    /// Starts an empty line.
    pub fn new() -> (r: LineEditor)
        ensures
            r.wf(),
            r@ == Seq::<u8>::empty(),
    {
        LineEditor { bytes: Vec::new() }
    }

    /// Returns the bytes of the line so far.
    pub fn bytes(&self) -> (r: &[u8])
        ensures
            r@ == self@,
    {
        self.bytes.as_slice()
    }

    /// Handles the byte `b` and says what to do about it.
    pub fn feed(&mut self, b: u8) -> (r: LineEvent)
        requires
            old(self).wf(),
        ensures
            final(self).wf(),
            (final(self)@, r) == feed_spec(old(self)@, b),
    {
        let boundary = str_from_utf8(self.bytes.as_slice()).is_ok();
        if boundary && (b == 8 || b == 0x7f) {
            if self.bytes.len() > 0 {
                let mut k = self.bytes.len() - 1;
                while k > 0 && str_from_utf8(vstd::slice::slice_subrange(self.bytes.as_slice(), 0, k)).is_err()
                    invariant
                        k < self.bytes@.len(),
                        boundary_at_or_before(self.bytes@, self.bytes@.len() - 1) == boundary_at_or_before(self.bytes@, k as int),
                    decreases k,
                {
                    k -= 1;
                }
                proof {
                    if k == 0 {
                        assert(self.bytes@.subrange(0, 0) =~= Seq::<u8>::empty());
                    }
                }
                self.bytes.truncate(k);
                proof {
                    assert(self.bytes@ =~= old(self).bytes@.subrange(0, k as int));
                }
                LineEvent::Erase
            } else {
                LineEvent::Ignore
            }
        } else if boundary && b == 13 {
            LineEvent::Submit
        } else if !boundary || b >= 32 {
            if self.bytes.len() < LINE_CAPACITY {
                self.bytes.push(b);
                LineEvent::Echo
            } else {
                LineEvent::Ignore
            }
        } else {
            LineEvent::Ignore
        }
    }
}

/// The value of the decimal digits `s`.
pub open spec fn decimal_value(s: Seq<u8>) -> int
    decreases s.len(),
{
    if s.len() == 0 {
        0
    } else {
        decimal_value(s.drop_last()) * 10 + (s.last() - 48)
    }
}

/// Whether every byte of `s` is a decimal digit.
pub open spec fn all_digits(s: Seq<u8>) -> bool {
    forall|i: int| 0 <= i < s.len() ==> 48 <= #[trigger] s[i] <= 57
}

/// The number that the text `s` gives in base 10, as `u64::from_str_radix` reads it: an optional
/// `+` and then at least one decimal digit, with a value that fits in 64 bits; `None` otherwise.
pub open spec fn parse_decimal_spec(s: Seq<u8>) -> Option<u64> {
    let d = if s.len() > 0 && s[0] == 43 { s.drop_first() } else { s };
    if d.len() > 0 && all_digits(d) && decimal_value(d) <= u64::MAX {
        Some(decimal_value(d) as u64)
    } else {
        None
    }
}

// Appending digits never makes the value smaller.
proof fn lemma_decimal_grows(d: Seq<u8>, i: int)
    requires
        all_digits(d),
        0 <= i <= d.len(),
    ensures
        decimal_value(d.subrange(0, i)) <= decimal_value(d),
        decimal_value(d.subrange(0, i)) >= 0,
    decreases d.len() - i,
{
    if i < d.len() {
        lemma_decimal_grows(d, i + 1);
        let p = d.subrange(0, i + 1);
        assert(p.drop_last() =~= d.subrange(0, i));
        lemma_decimal_nonneg(d.subrange(0, i));
    } else {
        assert(d.subrange(0, i) =~= d);
        lemma_decimal_nonneg(d);
    }
}

// The value of digits is never negative.
proof fn lemma_decimal_nonneg(d: Seq<u8>)
    requires
        all_digits(d),
    ensures
        decimal_value(d) >= 0,
    decreases d.len(),
{
    if d.len() > 0 {
        assert(all_digits(d.drop_last()));
        lemma_decimal_nonneg(d.drop_last());
    }
}

/// Reads `s` as `u64::from_str_radix(s, 10)` does.
pub fn parse_decimal(s: &[u8]) -> (r: Option<u64>)
    ensures
        r == parse_decimal_spec(s@),
{
    let start: usize = if s.len() > 0 && s[0] == 43 { 1 } else { 0 };
    let ghost d = if s@.len() > 0 && s@[0] == 43 { s@.drop_first() } else { s@ };
    assert(d =~= s@.subrange(start as int, s@.len() as int));
    if start == s.len() {
        return None;
    }
    let mut i: usize = start;
    while i < s.len()
        invariant
            start <= i <= s@.len(),
            d == s@.subrange(start as int, s@.len() as int),
            d == (if s@.len() > 0 && s@[0] == 43 { s@.drop_first() } else { s@ }),
            forall|j: int| start <= j < i ==> 48 <= #[trigger] s@[j] <= 57,
        decreases s@.len() - i,
    {
        if s[i] < 48 || s[i] > 57 {
            assert(d[i - start] == s@[i as int]);
            assert(!all_digits(d));
            assert(parse_decimal_spec(s@) is None);
            return None;
        }
        i += 1;
    }
    assert(all_digits(d)) by {
        assert forall|j: int| 0 <= j < d.len() implies 48 <= #[trigger] d[j] <= 57 by {
            assert(d[j] == s@[j + start]);
        }
    }
    let mut value: u64 = 0;
    let mut k: usize = start;
    while k < s.len()
        invariant
            start <= k <= s@.len(),
            d == s@.subrange(start as int, s@.len() as int),
            d == (if s@.len() > 0 && s@[0] == 43 { s@.drop_first() } else { s@ }),
            all_digits(d),
            value == decimal_value(d.subrange(0, k - start)),
        decreases s@.len() - k,
    {
        assert(d[k - start] == s@[k as int]);
        let digit = (s[k] - 48) as u64;
        let ghost p = d.subrange(0, k - start + 1);
        proof {
            assert(p.drop_last() =~= d.subrange(0, k - start));
            assert(p.last() == s@[k as int]);
        }
        if value > (u64::MAX - digit) / 10 {
            proof {
                lemma_decimal_grows(d, k - start + 1);
                assert(value * 10 + digit > u64::MAX) by (nonlinear_arith)
                    requires value > (u64::MAX - digit) / 10, digit <= 9;
                assert(decimal_value(p) == value * 10 + digit);
                assert(decimal_value(d) > u64::MAX);
                assert(parse_decimal_spec(s@) is None);
            }
            return None;
        }
        assert(value * 10 + digit <= u64::MAX) by (nonlinear_arith)
            requires value <= (u64::MAX - digit) / 10, digit <= 9;
        value = value * 10 + digit;
        k += 1;
    }
    assert(d.subrange(0, d.len() as int) =~= d);
    Some(value)
}

/// The index of the first `:` in `s` at or after `start`, or the length of `s` if there is none.
pub open spec fn next_colon(s: Seq<u8>, start: int) -> int
    decreases s.len() - start,
{
    if start >= s.len() {
        s.len() as int
    } else if s[start] == 58 {
        start
    } else {
        next_colon(s, start + 1)
    }
}

// Finds the first `:` in `s` at or after `start`.
fn find_colon(s: &[u8], start: usize) -> (r: usize)
    requires
        start <= s@.len(),
    ensures
        r == next_colon(s@, start as int),
        start <= r <= s@.len(),
{
    let mut i = start;
    while i < s.len() && s[i] != 58
        invariant
            start <= i <= s@.len(),
            next_colon(s@, i as int) == next_colon(s@, start as int),
        decreases s@.len() - i,
    {
        i += 1;
    }
    i
}

/// Why a time of day given to the `time` command was refused.
#[derive(Debug, Clone, Copy, PartialEq, Eq, Structural)]
pub enum TimeError {
    /// Only the hours were given.
    MissingMinutes,
    /// No seconds were given.
    MissingSeconds,
    /// More than three components were given.
    TooManyComponents,
    /// A component is not a decimal integer.
    NotIntegers,
    /// The hours, minutes or seconds are out of range.
    OutOfBounds,
}

/// The time of day that the text `s`, in the form `hh:mm:ss`, gives, in seconds since midnight.
pub open spec fn parse_time_spec(s: Seq<u8>) -> Result<u64, TimeError> {
    let n = s.len() as int;
    let c1 = next_colon(s, 0);
    let c2 = next_colon(s, c1 + 1);
    let c3 = next_colon(s, c2 + 1);
    if c1 >= n {
        Err(TimeError::MissingMinutes)
    } else if c2 >= n {
        Err(TimeError::MissingSeconds)
    } else if c3 < n {
        Err(TimeError::TooManyComponents)
    } else {
        match (parse_decimal_spec(s.subrange(0, c1)), parse_decimal_spec(s.subrange(c1 + 1, c2)),
            parse_decimal_spec(s.subrange(c2 + 1, n))) {
            (Some(h), Some(m), Some(sec)) => if h < 24 && m < 60 && sec < 60 {
                Ok((sec + m * 60 + h * 3600) as u64)
            } else {
                Err(TimeError::OutOfBounds)
            },
            _ => Err(TimeError::NotIntegers),
        }
    }
}

/// Reads the time of day `hh:mm:ss` that the `time` command sets, as seconds since midnight.
pub fn parse_time(s: &[u8]) -> (r: Result<u64, TimeError>)
    ensures
        r == parse_time_spec(s@),
{
    let n = s.len();
    let c1 = find_colon(s, 0);
    if c1 >= n {
        return Err(TimeError::MissingMinutes);
    }
    let c2 = find_colon(s, c1 + 1);
    if c2 >= n {
        return Err(TimeError::MissingSeconds);
    }
    let c3 = find_colon(s, c2 + 1);
    if c3 < n {
        return Err(TimeError::TooManyComponents);
    }
    let h = parse_decimal(vstd::slice::slice_subrange(s, 0, c1));
    let m = parse_decimal(vstd::slice::slice_subrange(s, c1 + 1, c2));
    let sec = parse_decimal(vstd::slice::slice_subrange(s, c2 + 1, n));
    match (h, m, sec) {
        (Some(h), Some(m), Some(sec)) => {
            if h < 24 && m < 60 && sec < 60 {
                Ok(sec + m * 60 + h * 3600)
            } else {
                Err(TimeError::OutOfBounds)
            }
        },
        _ => Err(TimeError::NotIntegers),
    }
}

/// The number of seconds in a day.
pub const SECONDS_PER_DAY: u64 = 86400;

/// The clock, in seconds since the epoch, after the time of day is set to `time_of_day` seconds
/// since midnight on the day of `now`.
pub fn set_time_of_day(now: u64, time_of_day: u64) -> (r: u64)
    requires
        time_of_day < SECONDS_PER_DAY,
        now - now % SECONDS_PER_DAY + time_of_day <= u64::MAX,
    ensures
        r == now - now % SECONDS_PER_DAY + time_of_day,
{
    let midnight = now - now % SECONDS_PER_DAY;
    midnight + time_of_day
}

/// The hours, minutes and seconds of the time of day that the clock `total_seconds`, in seconds
/// since the epoch, shows.
pub fn time_of_day_parts(total_seconds: u64) -> (r: (u64, u64, u64))
    ensures
        r == ((total_seconds / 3600) % 24, (total_seconds / 60) % 60, total_seconds % 60),
{
    ((total_seconds / 3600) % 24, (total_seconds / 60) % 60, total_seconds % 60)
}

} // verus!

verus! {

/// The length of the whitespace character (as `char::is_whitespace` has it) that starts at byte
/// `i` of the UTF-8 text `s`, or 0 if none starts there.
pub open spec fn whitespace_len(s: Seq<u8>, i: int) -> int {
    let b = s[i];
    if b == 0x20 || (0x09 <= b && b <= 0x0d) {
        1
    } else if b == 0xc2 && i + 1 < s.len() && (s[i + 1] == 0x85 || s[i + 1] == 0xa0) {
        2
    } else if b == 0xe1 && i + 2 < s.len() && s[i + 1] == 0x9a && s[i + 2] == 0x80 {
        3
    } else if b == 0xe2 && i + 2 < s.len() && ((s[i + 1] == 0x80 && ((0x80 <= s[i + 2] && s[i + 2] <= 0x8a)
        || s[i + 2] == 0xa8 || s[i + 2] == 0xa9 || s[i + 2] == 0xaf)) || (s[i + 1] == 0x81 && s[i + 2] == 0x9f)) {
        3
    } else if b == 0xe3 && i + 2 < s.len() && s[i + 1] == 0x80 && s[i + 2] == 0x80 {
        3
    } else {
        0
    }
}

/// The word `w` as a list of one word, or no word if it is empty.
pub open spec fn nonempty_word(w: Seq<u8>) -> Seq<Seq<u8>> {
    if w.len() == 0 { Seq::empty() } else { seq![w] }
}

/// The words of `s` from byte `i` on, where `word` holds the bytes of the word being read.
pub open spec fn words_from(s: Seq<u8>, i: nat, word: Seq<u8>) -> Seq<Seq<u8>>
    decreases s.len() - i,
{
    if i >= s.len() {
        nonempty_word(word)
    } else if whitespace_len(s, i as int) > 0 {
        nonempty_word(word) + words_from(s, (i + whitespace_len(s, i as int)) as nat, Seq::empty())
    } else {
        words_from(s, i + 1, word.push(s[i as int]))
    }
}

/// The words of the text `s`: its maximal runs of non-whitespace characters, in order.
pub open spec fn words_spec(s: Seq<u8>) -> Seq<Seq<u8>> {
    words_from(s, 0, Seq::empty())
}

fn whitespace_len_at(s: &[u8], i: usize) -> (r: usize)
    requires
        i < s@.len(),
    ensures
        r == whitespace_len(s@, i as int),
{
    let b = s[i];
    let len = s.len();
    if b == 0x20 || (0x09 <= b && b <= 0x0d) {
        1
    } else if b == 0xc2 && len - i > 1 && (s[i + 1] == 0x85 || s[i + 1] == 0xa0) {
        2
    } else if b == 0xe1 && len - i > 2 && s[i + 1] == 0x9a && s[i + 2] == 0x80 {
        3
    } else if b == 0xe2 && len - i > 2 && ((s[i + 1] == 0x80 && ((0x80 <= s[i + 2] && s[i + 2] <= 0x8a)
        || s[i + 2] == 0xa8 || s[i + 2] == 0xa9 || s[i + 2] == 0xaf)) || (s[i + 1] == 0x81 && s[i + 2] == 0x9f)) {
        3
    } else if b == 0xe3 && len - i > 2 && s[i + 1] == 0x80 && s[i + 2] == 0x80 {
        3
    } else {
        0
    }
}

/// Splits the command line `s` into its words, separated by whitespace.
pub fn split_words(s: &[u8]) -> (r: Vec<Vec<u8>>)
    ensures
        r@.len() == words_spec(s@).len(),
        forall|k: int| 0 <= k < r@.len() ==> (#[trigger] r@[k])@ == words_spec(s@)[k],
{
    let mut words: Vec<Vec<u8>> = Vec::new();
    let mut word: Vec<u8> = Vec::new();
    let ghost mut done: Seq<Seq<u8>> = Seq::empty();
    let mut i: usize = 0;
    while i < s.len()
        invariant
            i <= s@.len(),
            words_spec(s@) == done + words_from(s@, i as nat, word@),
            words@.len() == done.len(),
            forall|k: int| 0 <= k < words@.len() ==> (#[trigger] words@[k])@ == done[k],
        decreases s@.len() - i,
    {
        let w = whitespace_len_at(s, i);
        if w > 0 {
            let ghost rest = words_from(s@, (i + w) as nat, Seq::empty());
            assert(words_from(s@, i as nat, word@) == nonempty_word(word@) + rest);
            let ghost old_done = done;
            if word.len() > 0 {
                let finished = word;
                word = Vec::new();
                proof {
                    done = done.push(finished@);
                    assert(nonempty_word(finished@) == seq![finished@]);
                    assert(old_done + (seq![finished@] + rest) =~= done + rest);
                }
                words.push(finished);
            } else {
                proof {
                    assert(nonempty_word(word@) =~= Seq::<Seq<u8>>::empty());
                    assert(old_done + (Seq::<Seq<u8>>::empty() + rest) =~= done + rest);
                }
                word = Vec::new();
            }
            assert(word@ =~= Seq::<u8>::empty());
            i = i + w;
        } else {
            word.push(s[i]);
            i = i + 1;
        }
    }
    if word.len() > 0 {
        proof {
            assert(done + seq![word@] =~= done.push(word@));
        }
        let ghost old_done = done;
        proof {
            done = done.push(word@);
        }
        words.push(word);
    } else {
        assert(done + Seq::<Seq<u8>>::empty() =~= done);
    }
    words
}

/// The command a line asks for, by its words. Where a command takes a file, a directory or a
/// time, it is the line's second word; `Contents` takes every word after the first.
#[derive(Debug, Clone, Copy, PartialEq, Eq, Structural)]
pub enum ShellCommand {
    /// `help`: list the commands.
    Help,
    /// `contents FILE...`: print the files.
    Contents,
    /// `devices`: print the device tree.
    Devices,
    /// `list DIRECTORY`: list a directory.
    List,
    /// `list` with no directory.
    ListMissingPath,
    /// `list` with more than one word after it.
    ListTooManyArgs,
    /// `parse FILE`: print the parsed executable.
    Parse,
    /// `parse` with no file.
    ParseMissingFile,
    /// `profile`: print the profiler's report.
    Profile,
    /// `profile reset`: reset the profiler.
    ProfileReset,
    /// `profile` followed by a word other than `reset`.
    ProfileUnexpected,
    /// `run FILE`: run an executable in userspace.
    Run,
    /// `run` with no file.
    RunMissingFile,
    /// `shutdown`: shut the computer down.
    Shutdown,
    /// `shutdown` with words after it.
    ShutdownTooManyArgs,
    /// `time`: print the time.
    ShowTime,
    /// `time HH:MM:SS`: set the time of day, then print the time.
    SetTime,
    /// `time` with more than one word after it: complain, then print the time.
    TimeTooManyArgs,
    /// A first word that names no command.
    Unrecognized,
    /// A line with no words.
    Empty,
}

/// The command that the words `w` of a line ask for.
pub open spec fn command_spec(w: Seq<Seq<u8>>) -> ShellCommand {
    if w.len() == 0 {
        ShellCommand::Empty
    } else if w[0] == seq![104u8, 101, 108, 112] {
        ShellCommand::Help
    } else if w[0] == seq![99u8, 111, 110, 116, 101, 110, 116, 115] {
        ShellCommand::Contents
    } else if w[0] == seq![100u8, 101, 118, 105, 99, 101, 115] {
        ShellCommand::Devices
    } else if w[0] == seq![108u8, 105, 115, 116] {
        if w.len() == 1 {
            ShellCommand::ListMissingPath
        } else if w.len() > 2 {
            ShellCommand::ListTooManyArgs
        } else {
            ShellCommand::List
        }
    } else if w[0] == seq![112u8, 97, 114, 115, 101] {
        if w.len() == 1 { ShellCommand::ParseMissingFile } else { ShellCommand::Parse }
    } else if w[0] == seq![112u8, 114, 111, 102, 105, 108, 101] {
        if w.len() == 1 {
            ShellCommand::Profile
        } else if w[1] == seq![114u8, 101, 115, 101, 116] {
            ShellCommand::ProfileReset
        } else {
            ShellCommand::ProfileUnexpected
        }
    } else if w[0] == seq![114u8, 117, 110] {
        if w.len() == 1 { ShellCommand::RunMissingFile } else { ShellCommand::Run }
    } else if w[0] == seq![115u8, 104, 117, 116, 100, 111, 119, 110] {
        if w.len() > 1 { ShellCommand::ShutdownTooManyArgs } else { ShellCommand::Shutdown }
    } else if w[0] == seq![116u8, 105, 109, 101] {
        if w.len() == 1 {
            ShellCommand::ShowTime
        } else if w.len() > 2 {
            ShellCommand::TimeTooManyArgs
        } else {
            ShellCommand::SetTime
        }
    } else {
        ShellCommand::Unrecognized
    }
}

fn word_is(word: &Vec<u8>, lit: &[u8]) -> (r: bool)
    ensures
        r == (word@ == lit@),
{
    if word.len() != lit.len() {
        return false;
    }
    let mut k: usize = 0;
    while k < word.len()
        invariant
            word@.len() == lit@.len(),
            k <= word@.len(),
            forall|j: int| 0 <= j < k ==> word@[j] == lit@[j],
        decreases word@.len() - k,
    {
        if word[k] != lit[k] {
            return false;
        }
        k += 1;
    }
    assert(word@ =~= lit@);
    true
}

/// The command that the line `line` asks for, by its words.
pub fn parse_command(line: &[u8]) -> (r: ShellCommand)
    ensures
        r == command_spec(words_spec(line@)),
{
    let words = split_words(line);
    let ghost w = words_spec(line@);
    let n = words.len();
    if n == 0 {
        return ShellCommand::Empty;
    }
    let first = &words[0];
    assert(first@ == w[0]);
    if word_is(first, &[104u8, 101, 108, 112]) {
        ShellCommand::Help
    } else if word_is(first, &[99u8, 111, 110, 116, 101, 110, 116, 115]) {
        ShellCommand::Contents
    } else if word_is(first, &[100u8, 101, 118, 105, 99, 101, 115]) {
        ShellCommand::Devices
    } else if word_is(first, &[108u8, 105, 115, 116]) {
        if n == 1 {
            ShellCommand::ListMissingPath
        } else if n > 2 {
            ShellCommand::ListTooManyArgs
        } else {
            ShellCommand::List
        }
    } else if word_is(first, &[112u8, 97, 114, 115, 101]) {
        if n == 1 { ShellCommand::ParseMissingFile } else { ShellCommand::Parse }
    } else if word_is(first, &[112u8, 114, 111, 102, 105, 108, 101]) {
        if n == 1 {
            ShellCommand::Profile
        } else {
            assert(words@[1]@ == w[1]);
            if word_is(&words[1], &[114u8, 101, 115, 101, 116]) {
                ShellCommand::ProfileReset
            } else {
                ShellCommand::ProfileUnexpected
            }
        }
    } else if word_is(first, &[114u8, 117, 110]) {
        if n == 1 { ShellCommand::RunMissingFile } else { ShellCommand::Run }
    } else if word_is(first, &[115u8, 104, 117, 116, 100, 111, 119, 110]) {
        if n > 1 { ShellCommand::ShutdownTooManyArgs } else { ShellCommand::Shutdown }
    } else if word_is(first, &[116u8, 105, 109, 101]) {
        if n == 1 {
            ShellCommand::ShowTime
        } else if n > 2 {
            ShellCommand::TimeTooManyArgs
        } else {
            ShellCommand::SetTime
        }
    } else {
        ShellCommand::Unrecognized
    }
}

} // verus!
