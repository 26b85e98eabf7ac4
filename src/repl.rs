use vstd::prelude::*;

verus! {

/// A debugger command.
#[derive(Clone, Copy, Debug, PartialEq, Eq, Structural)]
pub enum Command {
    /// `n`, `next`: execute one instruction.
    Next,
    /// `c`, `continue`: run to the next breakpoint.
    Continue,
    /// `b`, `bp`, `break`: add a breakpoint.
    Break(u32),
    /// `rb`, `delbreakpoint`, `db`: remove a breakpoint.
    DeleteBreak(u32),
    /// `d`, `disasm`: show the instruction at an address.
    Disasm(u32),
    /// `i regs`, `info regs`: show the registers.
    InfoRegs,
    /// `q`, `quit`, `exit`.
    Quit,
}

/// Why a hexadecimal literal does not parse.
#[derive(Clone, Copy, Debug, PartialEq, Eq, Structural)]
pub enum HexError {
    /// Nothing after the prefix.
    Empty,
    /// A character that is not a hex digit.
    InvalidDigit,
    /// The value does not fit in 32 bits.
    Overflow,
}

/// Why a line is not a command.
#[derive(Clone, Copy, Debug, PartialEq, Eq, Structural)]
pub enum CommandError {
    /// A break command whose argument does not start with `0x`.
    BreakUsage,
    /// A remove-breakpoint command whose argument does not start with `0x`.
    DeleteBreakUsage,
    /// A disasm command whose argument does not start with `0x`.
    DisasmUsage,
    /// An info command with another argument than `regs`.
    InfoUsage,
    /// An address that is not a hex literal.
    BadHex(HexError),
    /// No command has this name.
    Unknown,
}

pub open spec fn is_space(c: char) -> bool {
    c == ' ' || c == '\t' || c == '\n' || c == '\r' || c == '\x0b' || c == '\x0c'
}

/// `i` is where the command name of `s` ends: at the first space, or at the end.
pub open spec fn is_name_end(s: Seq<char>, i: int) -> bool {
    &&& 0 <= i <= s.len()
    &&& forall|j: int| 0 <= j < i ==> s[j] != ' '
    &&& i < s.len() ==> s[i] == ' '
}

/// `i` is where the leading white space of `s` ends.
pub open spec fn is_text_start(s: Seq<char>, i: int) -> bool {
    &&& 0 <= i <= s.len()
    &&& forall|j: int| 0 <= j < i ==> is_space(s[j])
    &&& i < s.len() ==> !is_space(s[i])
}

/// The command name: the line up to its first space.
pub open spec fn command_name(line: Seq<char>) -> Seq<char> {
    line.take(choose|i: int| is_name_end(line, i))
}

/// The argument: what follows the command name, without leading white space.
pub open spec fn argument(line: Seq<char>) -> Seq<char> {
    let rest = line.skip(choose|i: int| is_name_end(line, i));
    rest.skip(choose|i: int| is_text_start(rest, i))
}

pub open spec fn hex_digit(c: char) -> Option<nat> {
    let u = c as u32;
    if 0x30 <= u <= 0x39 {
        Some((u - 0x30) as nat)
    } else if 0x61 <= u <= 0x66 {
        Some((u - 0x61 + 10) as nat)
    } else if 0x41 <= u <= 0x46 {
        Some((u - 0x41 + 10) as nat)
    } else {
        None
    }
}

/// The value of the first `k` digits of `s`, read from the left; the first character that
/// is no digit, or the first digit that takes the value past 32 bits, is the error.
pub open spec fn scan_hex(s: Seq<char>, k: int) -> Result<nat, HexError>
    decreases k,
{
    if k <= 0 {
        Ok(0)
    } else {
        match scan_hex(s, k - 1) {
            Err(e) => Err(e),
            Ok(acc) => match hex_digit(s[k - 1]) {
                None => Err(HexError::InvalidDigit),
                Some(d) => if acc * 16 + d > u32::MAX {
                    Err(HexError::Overflow)
                } else {
                    Ok(acc * 16 + d)
                },
            },
        }
    }
}

/// A hex number with an optional `+` sign in front, as an unsigned 32-bit value.
pub open spec fn parse_hex(s: Seq<char>) -> Result<u32, HexError> {
    if s.len() == 0 {
        Err(HexError::Empty)
    } else if s.len() == 1 && (s[0] == '+' || s[0] == '-') {
        Err(HexError::InvalidDigit)
    } else {
        let d = if s[0] == '+' { s.skip(1) } else { s };
        match scan_hex(d, d.len() as int) {
            Ok(v) => Ok(v as u32),
            Err(e) => Err(e),
        }
    }
}

/// An address argument: `0x` and a hex number.
pub open spec fn address(arg: Seq<char>, usage: CommandError) -> Result<u32, CommandError> {
    if arg.len() >= 2 && arg[0] == '0' && arg[1] == 'x' {
        match parse_hex(arg.skip(2)) {
            Ok(v) => Ok(v),
            Err(e) => Err(CommandError::BadHex(e)),
        }
    } else {
        Err(usage)
    }
}

/// The command that `line` spells.
pub open spec fn command_of(line: Seq<char>) -> Result<Command, CommandError> {
    let c = command_name(line);
    let a = argument(line);
    if c == "n"@ || c == "next"@ {
        Ok(Command::Next)
    } else if c == "c"@ || c == "continue"@ {
        Ok(Command::Continue)
    } else if c == "b"@ || c == "bp"@ || c == "break"@ {
        match address(a, CommandError::BreakUsage) {
            Ok(v) => Ok(Command::Break(v)),
            Err(e) => Err(e),
        }
    } else if c == "rb"@ || c == "delbreakpoint"@ || c == "db"@ {
        match address(a, CommandError::DeleteBreakUsage) {
            Ok(v) => Ok(Command::DeleteBreak(v)),
            Err(e) => Err(e),
        }
    } else if c == "d"@ || c == "disasm"@ {
        match address(a, CommandError::DisasmUsage) {
            Ok(v) => Ok(Command::Disasm(v)),
            Err(e) => Err(e),
        }
    } else if c == "q"@ || c == "quit"@ || c == "exit"@ {
        Ok(Command::Quit)
    } else if c == "i"@ || c == "info"@ {
        if a == "regs"@ {
            Ok(Command::InfoRegs)
        } else {
            Err(CommandError::InfoUsage)
        }
    } else {
        Err(CommandError::Unknown)
    }
}

/// Whether two strings hold the same characters.
pub(crate) fn same(a: &str, b: &str) -> (r: bool)
    ensures
        r == (a@ == b@),
{
    let n = a.unicode_len();
    if n != b.unicode_len() {
        return false;
    }
    let mut i: usize = 0;
    while i < n
        invariant
            n == a@.len(),
            n == b@.len(),
            i <= n,
            forall|j: int| 0 <= j < i ==> a@[j] == b@[j],
        decreases n - i,
    {
        if a.get_char(i) != b.get_char(i) {
            return false;
        }
        i = i + 1;
    }
    assert(a@ =~= b@);
    true
}

/// Splits a line into its command name and its argument.
pub fn split_command(line: &str) -> (r: (&str, &str))
    ensures
        r.0@ == command_name(line@),
        r.1@ == argument(line@),
{
    let n = line.unicode_len();
    let mut i: usize = 0;
    while i < n && line.get_char(i) != ' '
        invariant
            n == line@.len(),
            i <= n,
            forall|j: int| 0 <= j < i ==> line@[j] != ' ',
        decreases n - i,
    {
        i = i + 1;
    }
    proof {
        let k = choose|k: int| is_name_end(line@, k);
        assert(is_name_end(line@, i as int));
        if k < i {
            assert(line@[k] != ' ');
        } else if i < k {
            assert(line@[i as int] != ' ');
        }
    }
    let name = line.substring_char(0, i);
    let rest = line.substring_char(i, n);
    let m = rest.unicode_len();
    let mut j: usize = 0;
    while j < m && is_blank(rest.get_char(j))
        invariant
            m == rest@.len(),
            j <= m,
            forall|q: int| 0 <= q < j ==> is_space(rest@[q]),
        decreases m - j,
    {
        j = j + 1;
    }
    proof {
        let k = choose|k: int| is_text_start(rest@, k);
        assert(is_text_start(rest@, j as int));
        if k < j {
            assert(is_space(rest@[k]));
        } else if j < k {
            assert(!is_space(rest@[j as int]));
        }
    }
    let arg = rest.substring_char(j, m);
    assert(name@ =~= command_name(line@));
    assert(arg@ =~= argument(line@));
    (name, arg)
}

fn is_blank(c: char) -> (r: bool)
    ensures
        r == is_space(c),
{
    c == ' ' || c == '\t' || c == '\n' || c == '\r' || c == '\x0b' || c == '\x0c'
}

/// The value of a hex digit.
fn digit_value(c: char) -> (r: Option<u32>)
    ensures
        match r {
            Some(d) => hex_digit(c) == Some(d as nat),
            None => hex_digit(c) is None,
        },
{
    let u = c as u32;
    if 0x30 <= u && u <= 0x39 {
        Some(u - 0x30)
    } else if 0x61 <= u && u <= 0x66 {
        Some(u - 0x61 + 10)
    } else if 0x41 <= u && u <= 0x46 {
        Some(u - 0x41 + 10)
    } else {
        None
    }
}

/// Parses a hex number with an optional `+` in front into 32 bits.
pub fn parse_hex_u32(s: &str) -> (r: Result<u32, HexError>)
    ensures
        r == parse_hex(s@),
{
    let n = s.unicode_len();
    if n == 0 {
        return Err(HexError::Empty);
    }
    let first = s.get_char(0);
    if n == 1 && (first == '+' || first == '-') {
        return Err(HexError::InvalidDigit);
    }
    let d = if first == '+' { s.substring_char(1, n) } else { s.substring_char(0, n) };
    assert(d@ =~= if s@[0] == '+' { s@.skip(1) } else { s@ });
    let m = d.unicode_len();
    let mut acc: u32 = 0;
    let mut k: usize = 0;
    while k < m
        invariant
            m == d@.len(),
            n == s@.len(),
            n > 0,
            !(n == 1 && (s@[0] == '+' || s@[0] == '-')),
            d@ == (if s@[0] == '+' { s@.skip(1) } else { s@ }),
            k <= m,
            scan_hex(d@, k as int) == Ok::<nat, HexError>(acc as nat),
        decreases m - k,
    {
        let digit = match digit_value(d.get_char(k)) {
            Some(v) => v,
            None => {
                proof {
                    assert(scan_hex(d@, k as int + 1) == Err::<nat, HexError>(HexError::InvalidDigit));
                    lemma_scan_stops(d@, k as int + 1, m as int);
                }
                return Err(HexError::InvalidDigit);
            },
        };
        if acc > 0x0fff_ffff || acc * 16 > u32::MAX - digit {
            proof {
                assert(scan_hex(d@, k as int + 1) == Err::<nat, HexError>(HexError::Overflow));
                lemma_scan_stops(d@, k as int + 1, m as int);
            }
            return Err(HexError::Overflow);
        }
        acc = acc * 16 + digit;
        k = k + 1;
    }
    Ok(acc)
}

/// After an error the scan keeps it.
proof fn lemma_scan_stops(s: Seq<char>, k: int, n: int)
    requires
        0 < k <= n,
        scan_hex(s, k) is Err,
    ensures
        scan_hex(s, n) == scan_hex(s, k),
    decreases n - k,
{
    if k < n {
        lemma_scan_stops(s, k + 1, n);
    }
}

/// Reads a command from a line of input.
pub fn parse_command(line: &str) -> (r: Result<Command, CommandError>)
    ensures
        r == command_of(line@),
{
    let (c, a) = split_command(line);
    if same(c, "n") || same(c, "next") {
        Ok(Command::Next)
    } else if same(c, "c") || same(c, "continue") {
        Ok(Command::Continue)
    } else if same(c, "b") || same(c, "bp") || same(c, "break") {
        match parse_address(a, CommandError::BreakUsage) {
            Ok(v) => Ok(Command::Break(v)),
            Err(e) => Err(e),
        }
    } else if same(c, "rb") || same(c, "delbreakpoint") || same(c, "db") {
        match parse_address(a, CommandError::DeleteBreakUsage) {
            Ok(v) => Ok(Command::DeleteBreak(v)),
            Err(e) => Err(e),
        }
    } else if same(c, "d") || same(c, "disasm") {
        match parse_address(a, CommandError::DisasmUsage) {
            Ok(v) => Ok(Command::Disasm(v)),
            Err(e) => Err(e),
        }
    } else if same(c, "q") || same(c, "quit") || same(c, "exit") {
        Ok(Command::Quit)
    } else if same(c, "i") || same(c, "info") {
        if same(a, "regs") {
            Ok(Command::InfoRegs)
        } else {
            Err(CommandError::InfoUsage)
        }
    } else {
        Err(CommandError::Unknown)
    }
}

/// Reads an address argument; `usage` is the error for one without the `0x` prefix.
fn parse_address(arg: &str, usage: CommandError) -> (r: Result<u32, CommandError>)
    ensures
        r == address(arg@, usage),
{
    let n = arg.unicode_len();
    if n >= 2 && arg.get_char(0) == '0' && arg.get_char(1) == 'x' {
        let digits = arg.substring_char(2, n);
        assert(digits@ =~= arg@.skip(2));
        match parse_hex_u32(digits) {
            Ok(v) => Ok(v),
            Err(e) => Err(CommandError::BadHex(e)),
        }
    } else {
        Err(usage)
    }
}

} // verus!
