use vstd::prelude::*;
use crate::framebuffer::Framebuffer;

verus! {

/// What the shell asks for once a line is entered.
#[derive(Debug, PartialEq, Eq)]
pub enum ReplCommand {
    /// No complete line yet, or an empty line.
    Nothing,
    Alloc,
    Help,
    Clear,
    Heap,
    Paging,
    Panic,
    /// `echo <text>`: print the text.
    Echo(Vec<char>),
    Unknown,
}

pub open spec fn is_space(c: char) -> bool {
    c == ' ' || c == '\t' || c == '\n' || c == '\r'
}

/// `s` without leading blanks.
pub open spec fn trim_start(s: Seq<char>) -> Seq<char>
    decreases s.len(),
{
    if s.len() > 0 && is_space(s[0]) { trim_start(s.drop_first()) } else { s }
}

/// `s` without trailing blanks.
pub open spec fn trim_end(s: Seq<char>) -> Seq<char>
    decreases s.len(),
{
    if s.len() > 0 && is_space(s.last()) { trim_end(s.drop_last()) } else { s }
}

pub open spec fn trim(s: Seq<char>) -> Seq<char> {
    trim_end(trim_start(s))
}

/// The commands, without an echo's text.
#[derive(Clone, Copy, Debug, PartialEq, Eq, Structural)]
pub enum CommandKind {
    Nothing,
    Alloc,
    Help,
    Clear,
    Heap,
    Paging,
    Panic,
    Echo,
    Unknown,
}

pub open spec fn kind_of_command(r: ReplCommand) -> CommandKind {
    match r {
        ReplCommand::Nothing => CommandKind::Nothing,
        ReplCommand::Alloc => CommandKind::Alloc,
        ReplCommand::Help => CommandKind::Help,
        ReplCommand::Clear => CommandKind::Clear,
        ReplCommand::Heap => CommandKind::Heap,
        ReplCommand::Paging => CommandKind::Paging,
        ReplCommand::Panic => CommandKind::Panic,
        ReplCommand::Echo(_) => CommandKind::Echo,
        ReplCommand::Unknown => CommandKind::Unknown,
    }
}

/// The command a trimmed line names.
pub open spec fn command_of(t: Seq<char>) -> CommandKind {
    if t == seq!['a', 'l', 'l', 'o', 'c'] { CommandKind::Alloc }
    else if t == seq!['h', 'e', 'l', 'p'] { CommandKind::Help }
    else if t == seq!['c', 'l', 'e', 'a', 'r'] { CommandKind::Clear }
    else if t == seq!['h', 'e', 'a', 'p'] { CommandKind::Heap }
    else if t == seq!['p', 'a', 'g', 'i', 'n', 'g'] { CommandKind::Paging }
    else if t == seq!['p', 'a', 'n', 'i', 'c'] { CommandKind::Panic }
    else if t.len() == 0 { CommandKind::Nothing }
    else if t.len() >= 5 && t.subrange(0, 5) == seq!['e', 'c', 'h', 'o', ' '] { CommandKind::Echo }
    else { CommandKind::Unknown }
}

/// Is `r` the command of the trimmed line `t`? (An echo carries the rest
/// of the line.)
pub open spec fn command_matches(r: ReplCommand, t: Seq<char>) -> bool {
    &&& kind_of_command(r) == command_of(t)
    &&& r is Echo ==> r->Echo_0@ == t.subrange(5, t.len() as int)
}

fn equals_chars(a: &Vec<char>, start: usize, end: usize, b: &Vec<char>) -> (r: bool)
    requires
        start <= end <= a@.len(),
    ensures
        r == (a@.subrange(start as int, end as int) == b@),
{
    if end - start != b.len() {
        return false;
    }
    let mut i: usize = 0;
    while i < b.len()
        invariant
            start <= end <= a@.len(),
            end - start == b@.len(),
            i <= b@.len(),
            forall|j: int| 0 <= j < i ==> a@[start + j] == b@[j],
        decreases b@.len() - i,
    {
        if a[start + i] != b[i] {
            return false;
        }
        i = i + 1;
    }
    assert(a@.subrange(start as int, end as int) =~= b@);
    true
}

fn space(c: char) -> (r: bool)
    ensures
        r == is_space(c),
{
    c == ' ' || c == '\t' || c == '\n' || c == '\r'
}

/// The command of a line: the line without leading and trailing blanks,
/// matched against alloc, help, clear, heap, paging, panic, and `echo `.
pub fn parse_command(line: &Vec<char>) -> (r: ReplCommand)
    ensures
        command_matches(r, trim(line@)),
{
    let mut s: usize = 0;
    proof {
        assert(line@.subrange(0, line@.len() as int) =~= line@);
    }
    while s < line.len() && space(line[s])
        invariant
            s <= line@.len(),
            trim_start(line@) == trim_start(line@.subrange(s as int, line@.len() as int)),
        decreases line@.len() - s,
    {
        proof {
            let t = line@.subrange(s as int, line@.len() as int);
            assert(t.drop_first() =~= line@.subrange(s + 1, line@.len() as int));
        }
        s = s + 1;
    }
    let mut e: usize = line.len();
    proof {
        let t = line@.subrange(s as int, line@.len() as int);
        if s < line@.len() {
            assert(!is_space(t[0]));
        }
        assert(trim_start(t) == t);
    }
    while e > s && space(line[e - 1])
        invariant
            s <= e <= line@.len(),
            trim(line@) == trim_end(line@.subrange(s as int, e as int)),
        decreases e,
    {
        proof {
            let t = line@.subrange(s as int, e as int);
            assert(t.drop_last() =~= line@.subrange(s as int, e - 1));
        }
        e = e - 1;
    }
    proof {
        let t = line@.subrange(s as int, e as int);
        if e > s {
            assert(!is_space(t.last()));
        }
        assert(trim_end(t) == t);
    }
    let ghost tt = line@.subrange(s as int, e as int);
    if equals_chars(line, s, e, &vec!['a', 'l', 'l', 'o', 'c']) {
        return ReplCommand::Alloc;
    }
    if equals_chars(line, s, e, &vec!['h', 'e', 'l', 'p']) {
        return ReplCommand::Help;
    }
    if equals_chars(line, s, e, &vec!['c', 'l', 'e', 'a', 'r']) {
        return ReplCommand::Clear;
    }
    if equals_chars(line, s, e, &vec!['h', 'e', 'a', 'p']) {
        return ReplCommand::Heap;
    }
    if equals_chars(line, s, e, &vec!['p', 'a', 'g', 'i', 'n', 'g']) {
        return ReplCommand::Paging;
    }
    if equals_chars(line, s, e, &vec!['p', 'a', 'n', 'i', 'c']) {
        return ReplCommand::Panic;
    }
    if e == s {
        return ReplCommand::Nothing;
    }
    if e - s >= 5 && equals_chars(line, s, s + 5, &vec!['e', 'c', 'h', 'o', ' ']) {
        let mut text: Vec<char> = Vec::new();
        let mut i: usize = s + 5;
        while i < e
            invariant
                s + 5 <= i <= e <= line@.len(),
                text@ == line@.subrange(s + 5, i as int),
            decreases e - i,
        {
            text.push(line[i]);
            i = i + 1;
            proof {
                assert(text@ =~= line@.subrange(s + 5, i as int));
            }
        }
        proof {
            assert(tt.subrange(0, 5) =~= line@.subrange(s as int, s + 5));
            assert(tt.subrange(5, tt.len() as int) =~= line@.subrange(s + 5, e as int));
        }
        return ReplCommand::Echo(text);
    }
    proof {
        if tt.len() >= 5 {
            assert(tt.subrange(0, 5) =~= line@.subrange(s as int, s + 5));
        }
    }
    ReplCommand::Unknown
}

/// The kernel shell's line editor, drawing on the framebuffer.
pub struct Repl {
    command_buffer: Vec<char>,
    x: usize,
    y: usize,
}

impl Repl {
    /// The line typed so far.
    pub closed spec fn line(&self) -> Seq<char> {
        self.command_buffer@
    }

    /// An empty line with the cursor at (x, y).
    pub fn new(x: usize, y: usize) -> (r: Self)
        ensures
            r.line().len() == 0,
    {
        Repl { command_buffer: Vec::new(), x, y }
    }

    fn draw_char(&mut self, c: char, fb: &mut Framebuffer)
        ensures
            final(self).command_buffer@ == old(self).command_buffer@,
    {
        let b: u8 = if (c as u32) < 128 { c as u8 } else { 63u8 };
        let v = vec![b];
        fb.draw_text(self.x, self.y, v.as_slice(), [255, 255, 255], [0, 0, 0], 2);
        if self.x <= usize::MAX - 16 {
            self.x = self.x + 16;
        }
    }

    /// Draws the prompt "> " at the cursor.
    pub fn show_prompt(&mut self, fb: &mut Framebuffer)
        ensures
            final(self).line() == old(self).line(),
    {
        let p = vec![62u8, 32u8];
        fb.draw_text(self.x, self.y, p.as_slice(), [0, 255, 0], [0, 0, 0], 2);
        if self.x <= usize::MAX - 32 {
            self.x = self.x + 32;
        }
    }

    fn newline(&mut self, fb: &mut Framebuffer)
        ensures
            final(self).command_buffer@ == old(self).command_buffer@,
    {
        self.x = 10;
        if self.y <= usize::MAX - 40 {
            self.y = self.y + 20;
        }
        let (_, height) = fb.dimensions();
        if height < 20 || self.y > height - 20 {
            self.y = if height >= 40 { height - 40 } else { 0 };
        }
    }

    fn redraw_line(&mut self, fb: &mut Framebuffer)
        ensures
            final(self).command_buffer@ == old(self).command_buffer@,
    {
        let mut blank: Vec<u8> = Vec::new();
        let mut i: usize = 0;
        while i < 50
            decreases 50 - i,
        {
            blank.push(32u8);
            i = i + 1;
        }
        fb.draw_text(10, self.y, blank.as_slice(), [0, 0, 0], [0, 0, 0], 2);
        self.x = 10;
        self.show_prompt(fb);
        let mut k: usize = 0;
        let ghost line = self.command_buffer@;
        while k < self.command_buffer.len()
            invariant
                self.command_buffer@ == line,
            decreases self.command_buffer@.len() - k,
        {
            let c = self.command_buffer[k];
            self.draw_char(c, fb);
            k = k + 1;
        }
    }

    /// One key: Enter ends the line and returns its command (and shows a
    /// new prompt); backspace removes the last character; anything else is
    /// added and echoed.
    pub fn handle_char(&mut self, c: char, fb: &mut Framebuffer) -> (r: ReplCommand)
        ensures
            c == '\n' ==> final(self).line().len() == 0 && command_matches(r, trim(old(self).line())),
            c == '\u{8}' ==> r is Nothing && final(self).line() == (if old(self).line().len() > 0 {
                old(self).line().drop_last() } else { old(self).line() }),
            c != '\n' && c != '\u{8}' ==> r is Nothing && final(self).line() == old(self).line().push(c),
    {
        if c == '\n' {
            self.newline(fb);
            let cmd = parse_command(&self.command_buffer);
            self.command_buffer = Vec::new();
            self.show_prompt(fb);
            cmd
        } else if c == '\u{8}' {
            if self.command_buffer.len() > 0 {
                self.command_buffer.pop();
                self.redraw_line(fb);
            }
            ReplCommand::Nothing
        } else {
            self.command_buffer.push(c);
            self.draw_char(c, fb);
            ReplCommand::Nothing
        }
    }
}

} // verus!
