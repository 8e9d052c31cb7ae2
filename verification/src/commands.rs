//! Parsing of debugger commands: the command words a user types at the
//! prompt, and hexadecimal breakpoint addresses.

use vstd::prelude::*;

verus! {

/// One command of the debugger's prompt.
#[derive(Debug)]
pub enum DebuggerCommand {
    /// Leave the debugger.
    Quit,
    /// Start the program with the given arguments.
    Run(Vec<String>),
    /// Resume the stopped program.
    ContinueRun,
    /// Print the stopped program's call stack.
    BackTrace,
    /// Set a breakpoint at the given location.
    Break(String),
}

/// Whether `c` is a hexadecimal digit.
pub open spec fn is_hex_digit(c: char) -> bool {
    let u = c as int;
    (48 <= u <= 57)  // '0' to '9'
     || (97 <= u <= 102)  // 'a' to 'f'
     || (65 <= u <= 70)  // 'A' to 'F'

}

/// The value of one hexadecimal digit.
pub open spec fn hex_val(c: char) -> int {
    let u = c as int;
    if 48 <= u <= 57 {
        u - 48
    } else if 97 <= u <= 102 {
        u - 87
    } else {
        u - 55
    }
}

/// The number a sequence of hexadecimal digits denotes, most significant
/// digit first.
pub open spec fn hex_value(s: Seq<char>) -> int
    decreases s.len(),
{
    if s.len() == 0 {
        0
    } else {
        hex_value(s.drop_last()) * 16 + hex_val(s.last())
    }
}

/// `s` without a leading `0x` or `0X`, when it has one.
pub open spec fn strip_hex_prefix(s: Seq<char>) -> Seq<char> {
    if s.len() >= 2 && s[0] == '0' && (s[1] == 'x' || s[1] == 'X') {
        s.skip(2)
    } else {
        s
    }
}

/// Whether `s` starts with a plus sign, the only sign an unsigned parse
/// accepts.
pub open spec fn hex_plus(s: Seq<char>) -> bool {
    s.len() > 0 && s[0] == '+'
}

/// The digits of `s`, an optional plus sign removed. A minus sign is kept
/// and fails the digit check below, as it does for a machine word.
pub open spec fn hex_body(s: Seq<char>) -> Seq<char> {
    if hex_plus(s) {
        s.skip(1)
    } else {
        s
    }
}

/// At least one character, and all of them hexadecimal digits.
pub open spec fn hex_digits_ok(b: Seq<char>) -> bool {
    b.len() > 0 && (forall|i: int| 0 <= i < b.len() ==> is_hex_digit(b[i]))
}

/// What parsing `s` as a hexadecimal machine word yields: an optional
/// plus sign, then at least one hexadecimal digit; a minus sign always
/// fails, and so does a value above the machine's largest address.
pub open spec fn parse_hex_spec(s: Seq<char>) -> Option<usize> {
    if hex_digits_ok(hex_body(s)) {
        if hex_value(hex_body(s)) <= usize::MAX {
            Some(hex_value(hex_body(s)) as usize)
        } else {
            None
        }
    } else {
        None
    }
}

proof fn lemma_hex_value_nonneg(s: Seq<char>)
    requires
        forall|i: int| 0 <= i < s.len() ==> is_hex_digit(s[i]),
    ensures
        hex_value(s) >= 0,
    decreases s.len(),
{
    if s.len() > 0 {
        assert(forall|i: int|
            0 <= i < s.drop_last().len() ==> is_hex_digit(#[trigger] s.drop_last()[i]));
        lemma_hex_value_nonneg(s.drop_last());
        assert(hex_val(s.last()) >= 0);
    }
}

proof fn lemma_hex_value_take_le(s: Seq<char>, i: int)
    requires
        0 <= i <= s.len(),
        forall|t: int| 0 <= t < s.len() ==> is_hex_digit(s[t]),
    ensures
        hex_value(s.take(i)) <= hex_value(s),
    decreases s.len() - i,
{
    if i < s.len() {
        lemma_hex_value_take_le(s, i + 1);
        assert(s.take(i + 1).drop_last() =~= s.take(i));
        assert(s.take(i + 1).last() == s[i]);
        assert(forall|t: int|
            0 <= t < s.take(i).len() ==> is_hex_digit(#[trigger] s.take(i)[t]));
        lemma_hex_value_nonneg(s.take(i));
        assert(hex_value(s.take(i + 1)) == hex_value(s.take(i)) * 16 + hex_val(s[i]));
        assert(hex_value(s.take(i)) * 16 >= hex_value(s.take(i))) by (nonlinear_arith)
            requires hex_value(s.take(i)) >= 0;
        assert(hex_val(s[i]) >= 0);
    } else {
        assert(s.take(i) =~= s);
    }
}

/// Parses a breakpoint address: hexadecimal digits, with or without a
/// leading `0x`.
pub fn parse_address(addr: &str) -> (r: Option<usize>)
    ensures
        r == parse_hex_spec(strip_hex_prefix(addr@)),
{
    let total = addr.unicode_len();
    let mut start: usize = 0;
    if total >= 2 {
        let c0 = addr.get_char(0);
        let c1 = addr.get_char(1);
        if c0 == '0' && (c1 == 'x' || c1 == 'X') {
            start = 2;
        }
    }
    let ghost stripped = strip_hex_prefix(addr@);
    proof {
        assert(stripped =~= addr@.skip(start as int));
    }
    if start < total {
        if addr.get_char(start) == '+' {
            start += 1;
        }
    }
    let ghost body = addr@.skip(start as int);
    proof {
        assert(body =~= hex_body(stripped));
    }
    if start >= total {
        // no digits at all
        proof {
            assert(body.len() == 0);
            assert(parse_hex_spec(stripped) is None);
        }
        return None;
    }
    let mut acc: usize = 0;
    let mut k: usize = start;
    while k < total
        invariant
            start <= k <= total,
            total == addr@.len(),
            stripped == strip_hex_prefix(addr@),
            body == addr@.skip(start as int),
            body == hex_body(stripped),
            forall|t: int| start <= t < k ==> is_hex_digit(addr@[t]),
            acc == hex_value(body.take(k - start)),
        decreases total - k,
    {
        let c = addr.get_char(k);
        let u = c as u32;
        let d: u32 = if u >= 48 && u <= 57 {
            u - 48
        } else if u >= 97 && u <= 102 {
            u - 87
        } else if u >= 65 && u <= 70 {
            u - 55
        } else {
            // not a hexadecimal digit: the whole string fails
            proof {
                assert(!is_hex_digit(addr@[k as int]));
                assert(body[k - start] == addr@[k as int]);
                assert(0 <= k - start < body.len());
                assert(!(forall|i: int| 0 <= i < body.len() ==> is_hex_digit(body[i])));
                assert(parse_hex_spec(stripped) is None);
            }
            return None;
        };
        proof {
            assert(is_hex_digit(addr@[k as int]));
            assert(body.take(k - start + 1).drop_last() =~= body.take(k - start));
            assert(body.take(k - start + 1).last() == addr@[k as int]);
            assert(hex_val(addr@[k as int]) == d);
        }
        if acc > (usize::MAX - d as usize) / 16 {
            // the value no longer fits in a machine word; later digits can
            // only make it larger
            proof {
                assert(forall|t: int|
                    0 <= t < body.take(k - start + 1).len() ==> is_hex_digit(
                        #[trigger] body.take(k - start + 1)[t],
                    ));
                lemma_hex_value_nonneg(body.take(k - start));
                assert(hex_value(body.take(k - start + 1)) == acc * 16 + d) by (nonlinear_arith)
                    requires
                        hex_value(body.take(k - start + 1)) == hex_value(body.take(k - start)) * 16
                            + hex_val(body.take(k - start + 1).last()),
                        acc == hex_value(body.take(k - start)),
                        hex_val(body.take(k - start + 1).last()) == d,
                ;
                assert(acc * 16 + d > usize::MAX) by (nonlinear_arith)
                    requires
                        acc > (usize::MAX - d as usize) / 16,
                        acc >= 0,
                        0 <= d < 16,
                ;
                if forall|i: int| 0 <= i < body.len() ==> is_hex_digit(body[i]) {
                    lemma_hex_value_take_le(body, k - start + 1);
                }
            }
            return None;
        }
        proof {
            assert(acc * 16 + d <= usize::MAX) by (nonlinear_arith)
                requires
                    acc <= (usize::MAX - d as usize) / 16,
                    acc >= 0,
                    0 <= d < 16,
            ;
        }
        acc = acc * 16 + d as usize;
        k += 1;
    }
    proof {
        assert(body.take(total - start) =~= body);
        assert(forall|t: int| 0 <= t < body.len() ==> is_hex_digit(#[trigger] body[t]));
        lemma_hex_value_nonneg(body);
    }
    Some(acc)
}

/// Character-wise string comparison.
pub fn str_eq(a: &str, b: &str) -> (r: bool)
    ensures
        r == (a@ == b@),
{
    let la = a.unicode_len();
    let lb = b.unicode_len();
    if la != lb {
        return false;
    }
    let mut k: usize = 0;
    while k < la
        invariant
            la == a@.len(),
            la == b@.len(),
            k <= la,
            forall|t: int| 0 <= t < k ==> a@[t] == b@[t],
        decreases la - k,
    {
        if a.get_char(k) != b.get_char(k) {
            return false;
        }
        k += 1;
    }
    proof {
        assert(a@ =~= b@);
    }
    true
}

impl DebuggerCommand {
    /// Turns a tokenized command line into a command. The first token picks
    /// the command; `run` takes the remaining tokens as arguments and
    /// `break`/`b` takes its location from the second token.
    pub fn from_tokens(tokens: &Vec<&str>) -> (r: Option<DebuggerCommand>)
        requires
            tokens@.len() > 0,
            (tokens@[0]@ == "b"@ || tokens@[0]@ == "break"@) ==> tokens@.len() >= 2,
        ensures
            (tokens@[0]@ == "q"@ || tokens@[0]@ == "quit"@) ==> r matches Some(
                DebuggerCommand::Quit,
            ),
            (tokens@[0]@ == "r"@ || tokens@[0]@ == "run"@) ==> (r matches Some(
                DebuggerCommand::Run(args),
            ) && args@.len() == tokens@.len() - 1 && (forall|t: int|
                0 <= t < args@.len() ==> args@[t]@ == tokens@[t + 1]@)),
            (tokens@[0]@ == "c"@ || tokens@[0]@ == "cont"@ || tokens@[0]@ == "continue"@)
                ==> r matches Some(DebuggerCommand::ContinueRun),
            (tokens@[0]@ == "bt"@ || tokens@[0]@ == "back"@ || tokens@[0]@ == "backtrace"@)
                ==> r matches Some(DebuggerCommand::BackTrace),
            (tokens@[0]@ == "b"@ || tokens@[0]@ == "break"@) ==> (r matches Some(
                DebuggerCommand::Break(loc),
            ) && loc@ == tokens@[1]@),
            !(tokens@[0]@ == "q"@ || tokens@[0]@ == "quit"@ || tokens@[0]@ == "r"@ || tokens@[0]@
                == "run"@ || tokens@[0]@ == "c"@ || tokens@[0]@ == "cont"@ || tokens@[0]@
                == "continue"@ || tokens@[0]@ == "bt"@ || tokens@[0]@ == "back"@ || tokens@[0]@
                == "backtrace"@ || tokens@[0]@ == "b"@ || tokens@[0]@ == "break"@) ==> r is None,
    {
        proof {
            reveal_strlit("q");
            reveal_strlit("quit");
            reveal_strlit("r");
            reveal_strlit("run");
            reveal_strlit("c");
            reveal_strlit("cont");
            reveal_strlit("continue");
            reveal_strlit("bt");
            reveal_strlit("back");
            reveal_strlit("backtrace");
            reveal_strlit("b");
            reveal_strlit("break");
            // pin length and first character of each command word so the
            // words are known to be pairwise distinct
            assert("q"@.len() == 1 && "q"@[0] == 'q');
            assert("quit"@.len() == 4 && "quit"@[0] == 'q');
            assert("r"@.len() == 1 && "r"@[0] == 'r');
            assert("run"@.len() == 3 && "run"@[0] == 'r');
            assert("c"@.len() == 1 && "c"@[0] == 'c');
            assert("cont"@.len() == 4 && "cont"@[0] == 'c');
            assert("continue"@.len() == 8 && "continue"@[0] == 'c');
            assert("bt"@.len() == 2 && "bt"@[0] == 'b');
            assert("back"@.len() == 4 && "back"@[0] == 'b');
            assert("backtrace"@.len() == 9 && "backtrace"@[0] == 'b');
            assert("b"@.len() == 1 && "b"@[0] == 'b');
            assert("break"@.len() == 5 && "break"@[0] == 'b');
        }
        let head: &str = tokens[0];
        if str_eq(head, "q") || str_eq(head, "quit") {
            Some(DebuggerCommand::Quit)
        } else if str_eq(head, "r") || str_eq(head, "run") {
            let mut args: Vec<String> = Vec::new();
            let mut k: usize = 1;
            while k < tokens.len()
                invariant
                    1 <= k <= tokens@.len(),
                    args@.len() == k - 1,
                    forall|t: int| 0 <= t < args@.len() ==> args@[t]@ == tokens@[t + 1]@,
                decreases tokens@.len() - k,
            {
                args.push(tokens[k].to_owned());
                k += 1;
            }
            Some(DebuggerCommand::Run(args))
        } else if str_eq(head, "c") || str_eq(head, "cont") || str_eq(head, "continue") {
            Some(DebuggerCommand::ContinueRun)
        } else if str_eq(head, "bt") || str_eq(head, "back") || str_eq(head, "backtrace") {
            Some(DebuggerCommand::BackTrace)
        } else if str_eq(head, "b") || str_eq(head, "break") {
            Some(DebuggerCommand::Break(tokens[1].to_owned()))
        } else {
            None
        }
    }
}

} // verus!
