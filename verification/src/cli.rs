// The command line of the interactive front end: how a line is split into
// tokens, and what a matched command with its arguments asks for.

use crate::error::PatchbayError;
use crate::text::same_text;
use crate::{Action, ActionView};
use vstd::prelude::*;
use vstd::std_specs::iter::IteratorSpec;
use vstd::string::*;

verus! {

broadcast use vstd::string::group_string_axioms;

/// The characters that carry Unicode's `White_Space` property.
pub open spec fn is_whitespace_char(c: char) -> bool {
    let n = c as u32;
    ||| 0x09 <= n <= 0x0d
    ||| n == 0x20
    ||| n == 0x85
    ||| n == 0xa0
    ||| n == 0x1680
    ||| 0x2000 <= n <= 0x200a
    ||| n == 0x2028
    ||| n == 0x2029
    ||| n == 0x202f
    ||| n == 0x205f
    ||| n == 0x3000
}

/// Either of the two quote characters that group words into one token.
pub open spec fn is_quote_char(c: char) -> bool {
    c == '"' || c == '\''
}

/// Whether a reader that has consumed the first `n` characters of `s` is
/// inside a quoted stretch: every quote character flips the state.
pub open spec fn quoted_after(s: Seq<char>, n: int) -> bool
    decreases n,
{
    if n <= 0 {
        false
    } else {
        quoted_after(s, n - 1) != is_quote_char(s[n - 1])
    }
}

/// Whether the character at `i` ends a token: whitespace outside quotes.
pub open spec fn is_separator(s: Seq<char>, i: int) -> bool {
    !quoted_after(s, i + 1) && is_whitespace_char(s[i])
}

/// The pieces of the first `n` characters of `s` that lie between separators.
/// There is always at least one piece; two adjacent separators enclose an
/// empty one.
pub open spec fn pieces(s: Seq<char>, n: int) -> Seq<Seq<char>>
    decreases n,
{
    if n <= 0 {
        seq![Seq::<char>::empty()]
    } else {
        let before = pieces(s, n - 1);
        if is_separator(s, n - 1) {
            before.push(Seq::<char>::empty())
        } else {
            before.update(before.len() - 1, before.last().push(s[n - 1]))
        }
    }
}

/// `t` without its leading run of `c`.
pub open spec fn trim_start_of(t: Seq<char>, c: char) -> Seq<char>
    decreases t.len(),
{
    if t.len() > 0 && t[0] == c {
        trim_start_of(t.drop_first(), c)
    } else {
        t
    }
}

/// `t` without its trailing run of `c`.
pub open spec fn trim_end_of(t: Seq<char>, c: char) -> Seq<char>
    decreases t.len(),
{
    if t.len() > 0 && t.last() == c {
        trim_end_of(t.drop_last(), c)
    } else {
        t
    }
}

/// `t` without the runs of `c` at both ends.
pub open spec fn trimmed_of(t: Seq<char>, c: char) -> Seq<char> {
    trim_end_of(trim_start_of(t, c), c)
}

/// A token as the operator meant it: double quotes stripped from both ends,
/// then single quotes.
pub open spec fn unquoted(t: Seq<char>) -> Seq<char> {
    trimmed_of(trimmed_of(t, '"'), '\'')
}

/// The tokens of a command line.
pub open spec fn tokens_of(s: Seq<char>) -> Seq<Seq<char>> {
    Seq::new(pieces(s, s.len() as int).len(), |k: int| unquoted(pieces(s, s.len() as int)[k]))
}

/// Tells whether `c` is white space.
pub fn is_whitespace(c: char) -> (b: bool)
    ensures
        b == is_whitespace_char(c),
{
    let n: u32 = c as u32;
    (0x09 <= n && n <= 0x0d) || n == 0x20 || n == 0x85 || n == 0xa0 || n == 0x1680 || (0x2000 <= n
        && n <= 0x200a) || n == 0x2028 || n == 0x2029 || n == 0x202f || n == 0x205f || n == 0x3000
}

/// Strips every leading and every trailing `c` from `t`.
pub fn trim_matches<'a>(t: &'a str, c: char) -> (r: &'a str)
    ensures
        r@ == trimmed_of(t@, c),
{
    let len = t.unicode_len();
    let mut from: usize = 0;
    assert(t@.subrange(0, len as int) =~= t@);
    while from < len && t.get_char(from) == c
        invariant
            from <= len,
            len == t@.len(),
            trim_start_of(t@, c) == trim_start_of(t@.subrange(from as int, len as int), c),
        decreases len - from,
    {
        proof {
            let rest = t@.subrange(from as int, len as int);
            assert(rest.drop_first() =~= t@.subrange(from + 1, len as int));
        }
        from += 1;
    }
    let mut to: usize = len;
    while to > from && t.get_char(to - 1) == c
        invariant
            from <= to <= len,
            len == t@.len(),
            trim_end_of(t@.subrange(from as int, len as int), c) == trim_end_of(
                t@.subrange(from as int, to as int),
                c,
            ),
        decreases to,
    {
        proof {
            let rest = t@.subrange(from as int, to as int);
            assert(rest.drop_last() =~= t@.subrange(from as int, to - 1));
        }
        to -= 1;
    }
    t.substring_char(from, to)
}

/// Splits a command line into tokens at white space. A stretch between two
/// quote characters, single or double, is kept together and loses the
/// quotes at its ends.
pub fn split_args(input: &str) -> (tokens: Vec<&str>)
    ensures
        tokens@.len() == tokens_of(input@).len(),
        forall|k: int| 0 <= k < tokens@.len() ==> (#[trigger] tokens@[k])@ == tokens_of(input@)[k],
{
    let len = input.unicode_len();
    let mut chars = input.chars();
    let mut tokens: Vec<&str> = Vec::new();
    let mut start: usize = 0;
    let mut i: usize = 0;
    let mut quoted = false;
    assert(input@.subrange(0, len as int) =~= input@);
    assert(input@.subrange(0, 0) =~= Seq::<char>::empty());
    loop
        invariant
            len == input@.len(),
            start <= i <= len,
            chars.remaining() == input@.subrange(i as int, len as int),
            quoted == quoted_after(input@, i as int),
            pieces(input@, i as int).len() == tokens@.len() + 1,
            forall|k: int|
                0 <= k < tokens@.len() ==> (#[trigger] tokens@[k])@ == unquoted(
                    pieces(input@, i as int)[k],
                ),
            pieces(input@, i as int).last() == input@.subrange(start as int, i as int),
        ensures
            i == len,
        decreases len - i,
    {
        let next = chars.next();
        let c = match next {
            Some(c) => c,
            None => {
                break ;
            },
        };
        proof {
            let rest = input@.subrange(i as int, len as int);
            assert(rest.len() > 0);
            assert(c == rest[0]);
            assert(rest.drop_first() =~= input@.subrange(i + 1, len as int));
        }
        if c == '"' || c == '\'' {
            quoted = !quoted;
        }
        if !quoted && is_whitespace(c) {
            let piece = input.substring_char(start, i);
            tokens.push(trim_matches(trim_matches(piece, '"'), '\''));
            start = i + 1;
            proof {
                assert(input@.subrange(start as int, i + 1) =~= Seq::<char>::empty());
            }
        } else {
            proof {
                assert(input@.subrange(start as int, i + 1) =~= input@.subrange(
                    start as int,
                    i as int,
                ).push(c));
            }
        }
        i += 1;
    }
    let piece = input.substring_char(start, len);
    tokens.push(trim_matches(trim_matches(piece, '"'), '\''));
    tokens
}

/// Whether `c` is a decimal digit.
pub open spec fn is_digit(c: char) -> bool {
    0x30 <= c as u32 <= 0x39
}

/// The number that a run of decimal digits writes.
pub open spec fn decimal_value(digits: Seq<char>) -> nat
    decreases digits.len(),
{
    if digits.len() == 0 {
        0
    } else {
        decimal_value(digits.drop_last()) * 10 + (digits.last() as u32 - 0x30) as nat
    }
}

/// The digits of a number's text: what follows a leading plus sign, if
/// there is one.
pub open spec fn digits_of(text: Seq<char>) -> Seq<char> {
    if text.len() > 0 && text[0] == '+' {
        text.drop_first()
    } else {
        text
    }
}

/// The channel number that a text writes: one or more decimal digits,
/// after a plus sign or without one, that stay within sixteen bits.
pub open spec fn channel_of(text: Seq<char>) -> Option<u16> {
    let digits = digits_of(text);
    if digits.len() > 0 && (forall|i: int| 0 <= i < digits.len() ==> is_digit(#[trigger] digits[i]))
        && decimal_value(digits) <= u16::MAX {
        Some(decimal_value(digits) as u16)
    } else {
        None
    }
}

/// More digits never write a smaller number.
pub proof fn lemma_decimal_value_grows(digits: Seq<char>, n: int)
    requires
        0 <= n <= digits.len(),
        forall|i: int| 0 <= i < digits.len() ==> is_digit(#[trigger] digits[i]),
    ensures
        decimal_value(digits.take(n)) <= decimal_value(digits),
    decreases digits.len() - n,
{
    if n < digits.len() {
        assert(digits.take(n + 1).drop_last() =~= digits.take(n));
        assert(is_digit(digits[n]));
        lemma_decimal_value_grows(digits, n + 1);
    } else {
        assert(digits.take(n) =~= digits);
    }
}

/// Reads a channel number.
pub fn parse_channel(text: &str) -> (channel: Option<u16>)
    ensures
        channel == channel_of(text@),
{
    let len = text.unicode_len();
    let start: usize = if len > 0 && text.get_char(0) == '+' {
        1
    } else {
        0
    };
    let body = text.substring_char(start, len);
    let ghost digits = body@;
    assert(digits =~= digits_of(text@));
    let mut chars = body.chars();
    let mut value: u32 = 0;
    let mut any = false;
    let ghost mut n: int = 0;
    assert(digits.skip(0) =~= digits);
    assert(digits.take(0) =~= Seq::<char>::empty());
    loop
        invariant
            digits == digits_of(text@),
            0 <= n <= digits.len(),
            chars.remaining() == digits.skip(n),
            any == (n > 0),
            forall|i: int| 0 <= i < n ==> is_digit(#[trigger] digits[i]),
            value == decimal_value(digits.take(n)),
            value <= u16::MAX,
        decreases digits.len() - n,
    {
        let ghost rest = chars.remaining();
        let c = match chars.next() {
            Some(c) => c,
            None => {
                assert(digits.take(n) =~= digits);
                if any {
                    return Some(value as u16);
                }
                return None;
            },
        };
        assert(c == digits[n]);
        let code: u32 = c as u32;
        if code < 0x30 || code > 0x39 {
            assert(!is_digit(digits[n]));
            return None;
        }
        let next: u32 = value * 10 + (code - 0x30);
        proof {
            assert(digits.take(n + 1).drop_last() =~= digits.take(n));
            assert(next == decimal_value(digits.take(n + 1)));
        }
        if next > 0xffff {
            proof {
                if forall|i: int| 0 <= i < digits.len() ==> is_digit(#[trigger] digits[i]) {
                    lemma_decimal_value_grows(digits, n + 1);
                }
            }
            return None;
        }
        proof {
            assert(rest.drop_first() =~= digits.skip(n + 1));
            n = n + 1;
        }
        value = next;
        any = true;
    }
}

/// What a command and its arguments ask for, where the command is one of
/// the patchbay's and has the arguments it needs.
pub open spec fn action_of(command: Seq<char>, values: Seq<Seq<char>>) -> Result<
    ActionView,
    PatchbayError,
> {
    if command == "list"@ {
        Ok(ActionView::List)
    } else if command == "host"@ {
        if values.len() < 1 {
            Err(PatchbayError::MissingArgument)
        } else {
            Ok(ActionView::Host(values[0]))
        }
    } else if command == "connect"@ {
        if values.len() < 4 {
            Err(PatchbayError::MissingArgument)
        } else {
            match (channel_of(values[1]), channel_of(values[3])) {
                (Some(source_channel), Some(sink_channel)) => Ok(
                    ActionView::Connect(values[0], source_channel, values[2], sink_channel),
                ),
                _ => Err(PatchbayError::InvalidChannel),
            }
        }
    } else if command == "disconnect"@ {
        if values.len() < 1 {
            Err(PatchbayError::MissingArgument)
        } else {
            Ok(ActionView::Disconnect(values[0]))
        }
    } else if command == "print"@ {
        Ok(ActionView::Print)
    } else if command == "start"@ {
        Ok(ActionView::Start)
    } else if command == "stop"@ {
        Ok(ActionView::Stop)
    } else if command == "save"@ {
        if values.len() < 1 {
            Err(PatchbayError::MissingArgument)
        } else {
            Ok(ActionView::Save(values[0]))
        }
    } else if command == "load"@ {
        if values.len() < 1 {
            Err(PatchbayError::MissingArgument)
        } else {
            Ok(ActionView::Load(values[0]))
        }
    } else if command == "quit"@ {
        Ok(ActionView::Quit)
    } else {
        Err(PatchbayError::UnknownCommand)
    }
}

/// The contents of a list of texts.
pub open spec fn texts_of(values: Seq<String>) -> Seq<Seq<char>> {
    Seq::new(values.len(), |i: int| values[i]@)
}

impl Action {
    /// The action that a matched command asks for: `command` is the
    /// command's own name, not an alias of it, and `values` are its
    /// arguments in the order in which the command declares them.
    pub fn from_parts(command: &str, values: &Vec<String>) -> (r: Result<Action, PatchbayError>)
        ensures
            match r {
                Ok(action) => action_of(command@, texts_of(values@)) == Ok::<
                    ActionView,
                    PatchbayError,
                >(action@),
                Err(e) => action_of(command@, texts_of(values@)) == Err::<
                    ActionView,
                    PatchbayError,
                >(e),
            },
    {
        let ghost texts = texts_of(values@);
        if same_text(command, "list") {
            Ok(Action::List)
        } else if same_text(command, "host") {
            if values.len() < 1 {
                Err(PatchbayError::MissingArgument)
            } else {
                assert(texts[0] == values@[0]@);
                Ok(Action::Host(values[0].clone()))
            }
        } else if same_text(command, "connect") {
            if values.len() < 4 {
                Err(PatchbayError::MissingArgument)
            } else {
                assert(texts[0] == values@[0]@);
                assert(texts[1] == values@[1]@);
                assert(texts[2] == values@[2]@);
                assert(texts[3] == values@[3]@);
                let source_channel = parse_channel(values[1].as_str());
                let sink_channel = parse_channel(values[3].as_str());
                match (source_channel, sink_channel) {
                    (Some(source_channel), Some(sink_channel)) => Ok(
                        Action::Connect(
                            values[0].clone(),
                            source_channel,
                            values[2].clone(),
                            sink_channel,
                        ),
                    ),
                    _ => Err(PatchbayError::InvalidChannel),
                }
            }
        } else if same_text(command, "disconnect") {
            if values.len() < 1 {
                Err(PatchbayError::MissingArgument)
            } else {
                assert(texts[0] == values@[0]@);
                Ok(Action::Disconnect(values[0].clone()))
            }
        } else if same_text(command, "print") {
            Ok(Action::Print)
        } else if same_text(command, "start") {
            Ok(Action::Start)
        } else if same_text(command, "stop") {
            Ok(Action::Stop)
        } else if same_text(command, "save") {
            if values.len() < 1 {
                Err(PatchbayError::MissingArgument)
            } else {
                assert(texts[0] == values@[0]@);
                Ok(Action::Save(values[0].clone()))
            }
        } else if same_text(command, "load") {
            if values.len() < 1 {
                Err(PatchbayError::MissingArgument)
            } else {
                assert(texts[0] == values@[0]@);
                Ok(Action::Load(values[0].clone()))
            }
        } else if same_text(command, "quit") {
            Ok(Action::Quit)
        } else {
            Err(PatchbayError::UnknownCommand)
        }
    }
}

} // verus!
