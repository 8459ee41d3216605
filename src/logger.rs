//! An indenting message formatter for yaml-like trace dumps: messages are
//! shaped by a small string of actions and handed back as lines with a level.
use vstd::prelude::*;
use vstd::string::*;

verus! {

/// The level a line is meant for.
#[derive(Clone, Copy, Debug, PartialEq, Eq, Structural)]
pub enum MsgLevel {
    Trace,
    Debug,
    Info,
    Warn,
    Error,
}

/// One line of output.
#[derive(Debug, PartialEq)]
pub struct LogLine {
    pub level: MsgLevel,
    pub text: String,
}

/// The indentation state and the pieces every indented line is made of.
#[derive(Debug)]
pub struct ScreenLogger {
    depth: i32,
    indent: String,
    prefix: String,
    postfix: String,
}

/// The model of a [`ScreenLogger`].
pub struct LoggerView {
    pub depth: i32,
    pub indent: Seq<char>,
    pub prefix: Seq<char>,
    pub postfix: Seq<char>,
}

impl View for ScreenLogger {
    type V = LoggerView;

    closed spec fn view(&self) -> LoggerView {
        LoggerView {
            depth: self.depth,
            indent: self.indent@,
            prefix: self.prefix@,
            postfix: self.postfix@,
        }
    }
}

/// The start of the warning about a message printed twice.
pub const MULTIPRINT: &'static str = "Multiprint - '";

/// The start of the warning about quotes added after printing.
pub const LATE_QUOTES: &'static str = "Adding quotes to message after it has been printed - '";

pub open spec fn repeat(s: Seq<char>, n: nat) -> Seq<char>
    decreases n,
{
    if n == 0 {
        Seq::empty()
    } else {
        repeat(s, (n - 1) as nat) + s
    }
}

/// A message as shown at the logger's depth: above zero, the indent once per
/// level beyond the first, the prefix, the message and the postfix.
pub open spec fn shown(v: LoggerView, msg: Seq<char>) -> Seq<char> {
    if v.depth > 0 {
        repeat(v.indent, (v.depth - 1) as nat) + v.prefix + msg + v.postfix
    } else {
        msg
    }
}

pub open spec fn with_depth(v: LoggerView, depth: i32) -> LoggerView {
    LoggerView { depth, indent: v.indent, prefix: v.prefix, postfix: v.postfix }
}

/// One level deeper, held at `i32::MAX`.
pub open spec fn deeper(d: i32) -> i32 {
    if d < i32::MAX {
        (d + 1) as i32
    } else {
        d
    }
}

/// One level shallower, never below zero.
pub open spec fn shallower(d: i32) -> i32 {
    if d > 0 {
        (d - 1) as i32
    } else {
        d
    }
}

/// The characters that [`ScreenLogger::print`] takes as actions.
pub open spec fn is_action(c: char) -> bool {
    c == '+' || c == '-' || c == '_' || c == 'T' || c == 'D' || c == 'I' || c == 'W' || c == 'E'
        || c == 'r' || c == 'q'
}

/// The state of one [`ScreenLogger::print`] between two actions.
pub struct Printing {
    pub logger: LoggerView,
    pub level: MsgLevel,
    pub printed: bool,
    pub msg: Seq<char>,
    pub lines: Seq<(MsgLevel, Seq<char>)>,
}

/// What one action does: `+` and `-` change the depth, `r` resets it, `_`
/// prints the message (after a warning if it was printed already), `q`
/// quotes a message that was printed already (after a warning), and each of
/// `T`, `D`, `I`, `W`, `E` sets the level.
pub open spec fn act(p: Printing, c: char) -> Printing {
    let set = |level: MsgLevel|
        Printing { logger: p.logger, level, printed: p.printed, msg: p.msg, lines: p.lines };
    if c == '+' {
        Printing { logger: with_depth(p.logger, deeper(p.logger.depth)), ..p }
    } else if c == '-' {
        Printing { logger: with_depth(p.logger, shallower(p.logger.depth)), ..p }
    } else if c == 'r' {
        Printing { logger: with_depth(p.logger, 0), ..p }
    } else if c == '_' {
        let warned = if p.printed {
            p.lines.push((MsgLevel::Warn, shown(p.logger, MULTIPRINT@ + p.msg + seq!['\''])))
        } else {
            p.lines
        };
        Printing { printed: true, lines: warned.push((p.level, shown(p.logger, p.msg))), ..p }
    } else if c == 'q' {
        if p.printed {
            Printing {
                msg: seq!['\''] + p.msg + seq!['\''],
                lines: p.lines.push((MsgLevel::Warn, shown(p.logger, LATE_QUOTES@ + p.msg + seq!['\'']))),
                ..p
            }
        } else {
            p
        }
    } else if c == 'T' {
        set(MsgLevel::Trace)
    } else if c == 'D' {
        set(MsgLevel::Debug)
    } else if c == 'I' {
        set(MsgLevel::Info)
    } else if c == 'W' {
        set(MsgLevel::Warn)
    } else {
        set(MsgLevel::Error)
    }
}

pub open spec fn acts(p: Printing, cs: Seq<char>) -> Printing
    decreases cs.len(),
{
    if cs.len() == 0 {
        p
    } else {
        act(acts(p, cs.drop_last()), cs.last())
    }
}

/// The lines of a finished print: the message is printed at the end unless
/// an action printed it.
pub open spec fn finished(p: Printing) -> Seq<(MsgLevel, Seq<char>)> {
    if p.printed {
        p.lines
    } else {
        p.lines.push((p.level, shown(p.logger, p.msg)))
    }
}

pub open spec fn lines_view(s: Seq<LogLine>) -> Seq<(MsgLevel, Seq<char>)> {
    s.map_values(|l: LogLine| (l.level, l.text@))
}

pub open spec fn action_text(actions: Option<&str>) -> Seq<char> {
    match actions {
        Some(a) => a@,
        None => Seq::empty(),
    }
}

fn push_line(out: &mut Vec<LogLine>, line: LogLine)
    ensures
        lines_view(final(out)@) == lines_view(old(out)@).push((line.level, line.text@)),
{
    let ghost l = line;
    out.push(line);
    assert(lines_view(out@) =~= lines_view(old(out)@).push((l.level, l.text@)));
}

impl ScreenLogger {
    /// A logger at depth zero, indenting by two spaces, with `"- "` before each
    /// indented message.
    pub fn new() -> (r: ScreenLogger)
        ensures
            r@.depth == 0,
            r@.indent == seq![' ', ' '],
            r@.prefix == seq!['-', ' '],
            r@.postfix == Seq::<char>::empty(),
    {
        proof {
            reveal_strlit("  ");
            reveal_strlit("- ");
            reveal_strlit("");
        }
        ScreenLogger {
            depth: 0,
            indent: String::from_str("  "),
            prefix: String::from_str("- "),
            postfix: String::from_str(""),
        }
    }

    /// The line for a message at the current depth.
    pub fn print_msg(&self, level: MsgLevel, msg: &String) -> (r: LogLine)
        ensures
            r.level == level,
            r.text@ == shown(self@, msg@),
    {
        if self.depth > 0 {
            let mut text = String::new();
            let mut k: i32 = 0;
            while k < self.depth - 1
                invariant
                    0 <= k <= self.depth - 1,
                    text@ == repeat(self.indent@, k as nat),
                decreases self.depth - 1 - k,
            {
                text.append(self.indent.as_str());
                k = k + 1;
            }
            text.append(self.prefix.as_str());
            text.append(msg.as_str());
            text.append(self.postfix.as_str());
            LogLine { level, text }
        } else {
            LogLine { level, text: msg.clone() }
        }
    }

    /// One level deeper (held at `i32::MAX`).
    pub fn indent(&mut self)
        ensures
            final(self)@ == with_depth(old(self)@, deeper(old(self)@.depth)),
    {
        if self.depth < i32::MAX {
            self.depth = self.depth + 1;
        }
    }

    /// One level shallower, never below zero.
    pub fn dedent(&mut self)
        ensures
            final(self)@ == with_depth(old(self)@, shallower(old(self)@.depth)),
    {
        if self.depth > 0 {
            self.depth = self.depth - 1;
        }
    }

    /// Back to depth zero.
    pub fn reset(&mut self)
        ensures
            final(self)@ == with_depth(old(self)@, 0),
    {
        self.depth = 0;
    }

    /// Runs the actions in order on the message (see [`act`]) at level `Info`
    /// to start with, and hands back the lines produced.
    pub fn print(&mut self, actions: Option<&str>, msg: String) -> (r: Vec<LogLine>)
        requires
            forall|i: int| 0 <= i < action_text(actions).len() ==> is_action(
                #[trigger] action_text(actions)[i],
            ),
        ensures
            ({
                let start = Printing {
                    logger: old(self)@,
                    level: MsgLevel::Info,
                    printed: false,
                    msg: msg@,
                    lines: Seq::empty(),
                };
                let end = acts(start, action_text(actions));
                &&& final(self)@ == end.logger
                &&& lines_view(r@) == finished(end)
            }),
    {
        let ghost start = Printing {
            logger: self@,
            level: MsgLevel::Info,
            printed: false,
            msg: msg@,
            lines: Seq::empty(),
        };
        let acts_str: &str = match actions {
            Some(a) => a,
            None => "",
        };
        proof {
            reveal_strlit("");
        }
        let ghost cs = action_text(actions);
        assert(acts_str@ == cs);
        let n = acts_str.unicode_len();
        let mut msg = msg;
        let mut level = MsgLevel::Info;
        let mut has_printed = false;
        let mut out: Vec<LogLine> = Vec::new();
        let mut i: usize = 0;
        assert(cs.subrange(0, 0) =~= Seq::<char>::empty());
        assert(lines_view(out@) =~= Seq::<(MsgLevel, Seq<char>)>::empty());
        while i < n
            invariant
                n == cs.len(),
                acts_str@ == cs,
                i <= n,
                forall|j: int| 0 <= j < cs.len() ==> is_action(#[trigger] cs[j]),
                ({
                    let p = acts(start, cs.subrange(0, i as int));
                    &&& self@ == p.logger
                    &&& level == p.level
                    &&& has_printed == p.printed
                    &&& msg@ == p.msg
                    &&& lines_view(out@) == p.lines
                }),
            decreases n - i,
        {
            let c = acts_str.get_char(i);
            let ghost p = acts(start, cs.subrange(0, i as int));
            let ghost pre = cs.subrange(0, i as int + 1);
            assert(pre.drop_last() =~= cs.subrange(0, i as int));
            assert(pre.last() == c);
            let ghost lines0 = out@;
            proof {
                reveal_strlit("'");
            }
            if c == '+' {
                self.indent();
            } else if c == '-' {
                self.dedent();
            } else if c == 'r' {
                self.reset();
            } else if c == '_' {
                if has_printed {
                    let mut warning = String::from_str(MULTIPRINT);
                    assert(warning@ == MULTIPRINT@);
                    warning.append(msg.as_str());
                    assert(warning@ == MULTIPRINT@ + msg@);
                    warning.append("'");
                    assert(warning@ == MULTIPRINT@ + p.msg + seq!['\'']);
                    let line = self.print_msg(MsgLevel::Warn, &warning);
                    push_line(&mut out, line);
                }
                let line = self.print_msg(level, &msg);
                push_line(&mut out, line);
                has_printed = true;
                assert(lines_view(out@) =~= act(p, c).lines);
            } else if c == 'q' {
                if has_printed {
                    let mut warning = String::from_str(LATE_QUOTES);
                    assert(warning@ == LATE_QUOTES@);
                    warning.append(msg.as_str());
                    assert(warning@ == LATE_QUOTES@ + msg@);
                    warning.append("'");
                    assert(warning@ == LATE_QUOTES@ + p.msg + seq!['\'']);
                    let line = self.print_msg(MsgLevel::Warn, &warning);
                    push_line(&mut out, line);
                    let mut quoted = String::from_str("'");
                    assert(quoted@ == seq!['\'']);
                    quoted.append(msg.as_str());
                    quoted.append("'");
                    assert(quoted@ == seq!['\''] + p.msg + seq!['\'']);
                    msg = quoted;
                }
                assert(lines_view(out@) =~= act(p, c).lines);
            } else if c == 'T' {
                level = MsgLevel::Trace;
            } else if c == 'D' {
                level = MsgLevel::Debug;
            } else if c == 'I' {
                level = MsgLevel::Info;
            } else if c == 'W' {
                level = MsgLevel::Warn;
            } else {
                level = MsgLevel::Error;
            }
            assert(acts(start, pre) == act(p, c));
            assert(lines_view(out@) =~= act(p, c).lines);
            assert(lines_view(out@) =~= acts(start, pre).lines);
            i = i + 1;
        }
        assert(cs.subrange(0, n as int) =~= cs);
        if !has_printed {
            let line = self.print_msg(level, &msg);
            push_line(&mut out, line);
            assert(lines_view(out@) =~= finished(acts(start, cs)));
        }
        out
    }
}

} // verus!
