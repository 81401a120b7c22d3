//! The editline line buffer and the prompted one-line read that takes it
//! over, written as a state machine: the caller reads each keystroke,
//! redraws the line, and rings the bell when a step asks for it.

use vstd::prelude::*;

use crate::chartype::{
    iswalnum, iswalnum_spec, iswgraph, iswgraph_spec, iswspace, iswspace_spec, Charset,
};

verus! {

/// The initial size of the line buffer.
pub const EL_BUFSIZ: usize = 1024;

/// Slots left unused at the end of the line buffer, so that the slot after
/// the last character is always inside it.
pub const EL_LEAVE: usize = 2;

/// The most characters a prompted read accepts.
pub const C_GETS_MAX: usize = 1008;

/// The edit line: its buffer, the cursor and end as offsets into it, and
/// the usable limit.
#[derive(Debug)]
pub struct ElLine {
    pub buffer: Vec<u32>,
    pub cursor: usize,
    pub lastchar: usize,
    pub limit: usize,
}

/// The edit line by value.
#[verifier::ext_equal]
pub ghost struct LineView {
    pub buffer: Seq<u32>,
    pub cursor: usize,
    pub lastchar: usize,
    pub limit: usize,
}

impl View for ElLine {
    type V = LineView;

    open spec fn view(&self) -> LineView {
        LineView { buffer: self.buffer@, cursor: self.cursor, lastchar: self.lastchar, limit: self.limit }
    }
}

impl ElLine {
    /// The buffer is the limit plus the reserved slots, and the cursor and
    /// end lie within the usable part or one past it.
    pub open spec fn wf(&self) -> bool {
        &&& self.buffer@.len() == self.limit + EL_LEAVE
        &&& self.limit + EL_LEAVE <= usize::MAX
        &&& self.cursor <= self.limit + 1
        &&& self.lastchar <= self.limit + 1
    }

    /// An empty line of the initial size, zero-filled.
    pub fn new() -> (line: Self)
        ensures
            line.wf(),
            line.buffer@ == Seq::new(EL_BUFSIZ as nat, |i: int| 0u32),
            line.cursor == 0,
            line.lastchar == 0,
            line.limit == EL_BUFSIZ - EL_LEAVE,
    {
        let mut buffer: Vec<u32> = Vec::new();
        let mut i: usize = 0;
        while i < EL_BUFSIZ
            invariant
                i <= EL_BUFSIZ,
                buffer@ == Seq::new(i as nat, |j: int| 0u32),
            decreases EL_BUFSIZ - i,
        {
            buffer.push(0);
            proof {
                assert(buffer@ =~= Seq::new((i + 1) as nat, |j: int| 0u32));
            }
            i = i + 1;
        }
        ElLine { buffer, cursor: 0, lastchar: 0, limit: EL_BUFSIZ - EL_LEAVE }
    }

    /// An initial line holding `text` with the cursor at `cursor`; `None`
    /// when the text does not fit or the cursor lies past it.
    pub fn with_text(text: &[u32], cursor: usize) -> (line: Option<Self>)
        ensures
            text@.len() <= EL_BUFSIZ - EL_LEAVE && cursor <= text@.len() ==> (line matches Some(l) && l.wf()
                && l.buffer@.subrange(0, text@.len() as int) == text@ && l.lastchar == text@.len() && l.cursor
                == cursor && l.limit == EL_BUFSIZ - EL_LEAVE),
            !(text@.len() <= EL_BUFSIZ - EL_LEAVE && cursor <= text@.len()) ==> line is None,
    {
        if text.len() > EL_BUFSIZ - EL_LEAVE || cursor > text.len() {
            return None;
        }
        let mut line = ElLine::new();
        let mut i: usize = 0;
        while i < text.len()
            invariant
                i <= text@.len() <= EL_BUFSIZ - EL_LEAVE,
                line.wf(),
                line.cursor == 0,
                line.lastchar == 0,
                line.limit == EL_BUFSIZ - EL_LEAVE,
                line.buffer@.subrange(0, i as int) == text@.subrange(0, i as int),
            decreases text@.len() - i,
        {
            let ghost before = line.buffer@;
            line.buffer.set(i, text[i]);
            proof {
                assert(line.buffer@.subrange(0, i + 1) =~= text@.subrange(0, i + 1));
            }
            i = i + 1;
        }
        proof {
            assert(text@.subrange(0, text@.len() as int) =~= text@);
        }
        line.lastchar = text.len();
        line.cursor = cursor;
        Some(line)
    }
}

/// The column of the cursor within its line: the characters after the last
/// embedded newline before it.
pub open spec fn column_of(buffer: Seq<u32>, cursor: int) -> int
    decreases cursor,
{
    if cursor <= 0 {
        0
    } else if buffer[cursor - 1] == 0x0A {
        0
    } else {
        1 + column_of(buffer, cursor - 1)
    }
}

/// The column of the cursor within its line.
pub fn c_hpos(line: &ElLine) -> (column: i32)
    requires
        line.wf(),
        line.limit < i32::MAX,
    ensures
        column == column_of(line.buffer@, line.cursor as int),
{
    let mut i = line.cursor;
    while i > 0 && line.buffer[i - 1] != 0x0A
        invariant
            i <= line.cursor <= line.limit + 1,
            line.wf(),
            column_of(line.buffer@, line.cursor as int) == (line.cursor - i) + column_of(line.buffer@, i as int),
            i == 0 || line.buffer@[i - 1] == 0x0A || true,
        decreases i,
    {
        i = i - 1;
    }
    proof {
        if i > 0 {
            assert(line.buffer@[i - 1] == 0x0A);
        }
    }
    (line.cursor - i) as i32
}

/// Delete the character under the cursor: the tail slides left by one and
/// the end moves back. The cursor stays; deleting at the end only moves the
/// end back, never before the start of the buffer.
pub fn c_delafter1(line: &mut ElLine)
    requires
        old(line).wf(),
    ensures
        final(line).wf(),
        final(line).cursor == old(line).cursor,
        final(line).limit == old(line).limit,
        final(line).lastchar == if old(line).lastchar > 0 { old(line).lastchar - 1 } else { 0 },
        old(line).cursor < old(line).lastchar ==> final(line).buffer@ == old(line).buffer@.subrange(
            0,
            old(line).cursor as int,
        ) + old(line).buffer@.subrange(old(line).cursor + 1, old(line).lastchar + 1) + old(line).buffer@.subrange(
            old(line).lastchar as int,
            old(line).buffer@.len() as int,
        ),
        old(line).cursor >= old(line).lastchar ==> final(line).buffer@ == old(line).buffer@,
{
    let cursor = line.cursor;
    let lastchar = line.lastchar;
    if cursor < lastchar {
        let ghost before = line.buffer@;
        let mut i = cursor;
        while i < lastchar
            invariant
                cursor <= i <= lastchar <= line.limit + 1,
                line.cursor == cursor,
                line.lastchar == lastchar,
                line.buffer@.len() == before.len(),
                before.len() == line.limit + EL_LEAVE,
                line.limit == old(line).limit,
                forall|j: int| 0 <= j < cursor ==> line.buffer@[j] == before[j],
                forall|j: int| cursor <= j < i ==> line.buffer@[j] == before[j + 1],
                forall|j: int| i <= j < before.len() ==> line.buffer@[j] == before[j],
            decreases lastchar - i,
        {
            let next = line.buffer[i + 1];
            line.buffer.set(i, next);
            i = i + 1;
        }
        proof {
            assert(line.buffer@ =~= before.subrange(0, cursor as int) + before.subrange(cursor + 1, lastchar + 1)
                + before.subrange(lastchar as int, before.len() as int));
        }
    }
    line.lastchar = if lastchar > 0 {
        lastchar - 1
    } else {
        0
    };
}

/// Delete the character before the cursor: the text from the cursor slides
/// left by one and the end moves back. The cursor stays where it was, for
/// the caller to move; at the start of the buffer nothing is written before
/// it.
pub fn c_delbefore1(line: &mut ElLine)
    requires
        old(line).wf(),
    ensures
        final(line).wf(),
        final(line).cursor == old(line).cursor,
        final(line).limit == old(line).limit,
        final(line).lastchar == if old(line).lastchar > 0 { old(line).lastchar - 1 } else { 0 },
        ({
            let dst = if old(line).cursor > 0 { old(line).cursor - 1 } else { 0 };
            dst < old(line).lastchar ==> final(line).buffer@ == old(line).buffer@.subrange(0, dst as int)
                + old(line).buffer@.subrange(dst + 1, old(line).lastchar + 1) + old(line).buffer@.subrange(
                old(line).lastchar as int,
                old(line).buffer@.len() as int,
            )
        }),
        ({
            let dst = if old(line).cursor > 0 { old(line).cursor - 1 } else { 0 };
            dst >= old(line).lastchar ==> final(line).buffer@ == old(line).buffer@
        }),
{
    let cursor = line.cursor;
    let lastchar = line.lastchar;
    let dst = if cursor > 0 {
        cursor - 1
    } else {
        0
    };
    if dst < lastchar {
        let ghost before = line.buffer@;
        let mut i = dst;
        while i < lastchar
            invariant
                dst <= i <= lastchar <= line.limit + 1,
                line.cursor == cursor,
                line.lastchar == lastchar,
                line.buffer@.len() == before.len(),
                before.len() == line.limit + EL_LEAVE,
                line.limit == old(line).limit,
                forall|j: int| 0 <= j < dst ==> line.buffer@[j] == before[j],
                forall|j: int| dst <= j < i ==> line.buffer@[j] == before[j + 1],
                forall|j: int| i <= j < before.len() ==> line.buffer@[j] == before[j],
            decreases lastchar - i,
        {
            let next = line.buffer[i + 1];
            line.buffer.set(i, next);
            i = i + 1;
        }
        proof {
            assert(line.buffer@ =~= before.subrange(0, dst as int) + before.subrange(dst + 1, lastchar + 1)
                + before.subrange(lastchar as int, before.len() as int));
        }
    }
    line.lastchar = if lastchar > 0 {
        lastchar - 1
    } else {
        0
    };
}

/// What one keystroke means to a prompted read.
#[derive(Debug, Clone, Copy, PartialEq, Eq, Structural)]
pub enum Keystroke {
    /// Backspace or DEL with something typed: uncount the last character.
    Erase,
    /// Backspace or DEL with nothing typed: abort the read.
    Abort,
    /// ESC, CR or LF: end the read; the terminator is stored uncounted.
    Terminate,
    /// An ordinary character: store it.
    Store,
    /// The read is full: ring the bell and drop the character.
    TooLong,
}

/// What a keystroke means after `len` characters were accepted.
pub open spec fn classify(ch: u32, len: usize) -> Keystroke {
    if ch == 0x08 || ch == 0x7F {
        if len == 0 {
            Keystroke::Abort
        } else {
            Keystroke::Erase
        }
    } else if ch == 0x1B || ch == 0x0D || ch == 0x0A {
        Keystroke::Terminate
    } else if len >= C_GETS_MAX {
        Keystroke::TooLong
    } else {
        Keystroke::Store
    }
}

/// What a keystroke means after `len` characters were accepted.
pub fn c_gets_classify(ch: u32, len: usize) -> (stroke: Keystroke)
    ensures
        stroke == classify(ch, len),
{
    if ch == 0x08 || ch == 0x7F {
        if len == 0 {
            Keystroke::Abort
        } else {
            Keystroke::Erase
        }
    } else if ch == 0x1B || ch == 0x0D || ch == 0x0A {
        Keystroke::Terminate
    } else if len >= C_GETS_MAX {
        Keystroke::TooLong
    } else {
        Keystroke::Store
    }
}

/// A prompted read in progress: the prompt's length and the characters
/// accepted so far.
#[derive(Debug)]
pub struct GetsSession {
    pub prompt_len: usize,
    pub len: usize,
}

/// What the caller does after a step of a prompted read.
#[derive(Debug, Clone, Copy, PartialEq, Eq, Structural)]
pub enum GetsStep {
    /// Redraw the line and read another keystroke, ringing the bell first
    /// when `beep` holds.
    Continue { beep: bool },
    /// The read is over: the count of characters, or -1 when it was
    /// aborted or the input ended. `end_of_input` asks the caller to move
    /// the display below the line.
    Finished { result: i32, end_of_input: bool },
}

/// Where the cursor blank goes after `len` characters behind a prompt.
pub open spec fn draw_at(prompt_len: usize, len: usize, limit: usize) -> int {
    if prompt_len + len <= limit {
        prompt_len + len
    } else {
        limit as int
    }
}

/// The line drawing the read: the cursor on a blank at the draw position,
/// the line ending just after it.
pub open spec fn drawn(before: LineView, at: int) -> LineView {
    LineView { buffer: before.buffer.update(at, 0x20u32), cursor: at as usize, lastchar: (at + 1) as usize, ..before }
}

/// The line a finished read leaves: only the first cell cleared, cursor and
/// end at the start.
pub open spec fn cleared(before: LineView) -> LineView {
    LineView { buffer: before.buffer.update(0, 0u32), cursor: 0, lastchar: 0, ..before }
}

fn set_blank(line: &mut ElLine, session: &GetsSession)
    requires
        old(line).wf(),
        session.len <= C_GETS_MAX,
        old(line).limit >= 1,
    ensures
        final(line).wf(),
        final(line)@ == drawn(old(line)@, draw_at(session.prompt_len, session.len, old(line).limit)),
{
    let size = line.buffer.len();
    let at = if session.prompt_len <= line.limit && session.len <= line.limit - session.prompt_len {
        session.prompt_len + session.len
    } else {
        line.limit
    };
    line.cursor = at;
    line.buffer.set(at, 0x20);
    line.lastchar = at + 1;
}

fn clear_line(line: &mut ElLine)
    requires
        old(line).wf(),
    ensures
        final(line).wf(),
        final(line)@ == cleared(old(line)@),
{
    line.buffer.set(0, 0);
    line.lastchar = 0;
    line.cursor = 0;
}

/// Begin a prompted read: the prompt is copied over the start of the line,
/// as much of it as the limit allows, and the cursor blank is drawn after
/// it. `None`, changing nothing, when the caller's storage cannot hold a
/// full read and its terminator.
pub fn c_gets_begin(line: &mut ElLine, buf_len: usize, prompt: Option<&[u32]>) -> (session: Option<GetsSession>)
    requires
        old(line).wf(),
        old(line).limit >= 1,
    ensures
        final(line).wf(),
        final(line).limit == old(line).limit,
        buf_len <= C_GETS_MAX ==> session is None && final(line)@ == old(line)@,
        buf_len > C_GETS_MAX ==> (session matches Some(s) && s.len == 0 && s.prompt_len == (match prompt {
            Some(p) => p@.len(),
            None => 0,
        }) && ({
            let p = match prompt {
                Some(p) => p@,
                None => Seq::empty(),
            };
            let copied = if p.len() <= old(line).limit { p.len() as int } else { old(line).limit as int };
            let prompted = p.subrange(0, copied) + old(line).buffer@.subrange(copied, old(line).buffer@.len() as int);
            final(line).buffer@ == prompted.update(draw_at(s.prompt_len, 0, old(line).limit), 0x20u32)
                && final(line).cursor == draw_at(s.prompt_len, 0, old(line).limit) && final(line).lastchar
                == draw_at(s.prompt_len, 0, old(line).limit) + 1
        })),
{
    if buf_len <= C_GETS_MAX {
        return None;
    }
    let empty: [u32; 0] = [];
    let p: &[u32] = match prompt {
        Some(p) => p,
        None => &empty,
    };
    proof {
        assert(p@ =~= match prompt {
            Some(q) => q@,
            None => Seq::<u32>::empty(),
        });
    }
    let copied = if p.len() <= line.limit {
        p.len()
    } else {
        line.limit
    };
    let ghost before = line.buffer@;
    let mut i: usize = 0;
    while i < copied
        invariant
            i <= copied <= line.limit,
            copied <= p@.len(),
            line.wf(),
            line.limit == old(line).limit,
            line.cursor == old(line).cursor,
            line.lastchar == old(line).lastchar,
            line.buffer@.len() == before.len(),
            forall|j: int| 0 <= j < i ==> line.buffer@[j] == p@[j],
            forall|j: int| i <= j < before.len() ==> line.buffer@[j] == before[j],
        decreases copied - i,
    {
        line.buffer.set(i, p[i]);
        i = i + 1;
    }
    proof {
        assert(line.buffer@ =~= p@.subrange(0, copied as int) + before.subrange(copied as int, before.len() as int));
    }
    let session = GetsSession { prompt_len: p.len(), len: 0 };
    set_blank(line, &session);
    Some(session)
}

/// Take one keystroke of a prompted read, or `None` when the input ended.
/// The step stores, erases or terminates as the keystroke means, draws the
/// cursor blank for the next keystroke, and clears the line when the read
/// is over.
pub fn c_gets_feed(session: &mut GetsSession, line: &mut ElLine, buf: &mut [u32], key: Option<u32>) -> (step: GetsStep)
    requires
        old(line).wf(),
        old(line).limit >= 1,
        old(line).cursor == draw_at(old(session).prompt_len, old(session).len, old(line).limit),
        old(session).len <= C_GETS_MAX,
        old(buf)@.len() > C_GETS_MAX,
    ensures
        final(line).wf(),
        final(line).limit == old(line).limit,
        final(session).prompt_len == old(session).prompt_len,
        final(session).len <= C_GETS_MAX,
        final(buf)@.len() == old(buf)@.len(),
        ({
            let len = old(session).len;
            let at = draw_at(old(session).prompt_len, len, old(line).limit);
            match key {
                None => step == (GetsStep::Finished { result: -1i32, end_of_input: true }) && final(line)@ == cleared(
                    LineView { buffer: old(line).buffer@.update(old(line).lastchar as int, 0u32), ..old(line)@ },
                ) && final(buf)@ == old(buf)@,
                Some(ch) => match classify(ch, len) {
                    Keystroke::Abort => step == (GetsStep::Finished { result: -1i32, end_of_input: false })
                        && final(line)@ == cleared(old(line)@) && final(buf)@ == old(buf)@,
                    Keystroke::Terminate => step == (GetsStep::Finished { result: len as i32, end_of_input: false })
                        && final(line)@ == cleared(old(line)@) && final(buf)@ == old(buf)@.update(len as int, ch),
                    Keystroke::Erase => step == (GetsStep::Continue { beep: false }) && final(session).len == len - 1
                        && final(line)@ == drawn(old(line)@, draw_at(old(session).prompt_len, (len - 1) as usize, old(line).limit))
                        && final(buf)@ == old(buf)@,
                    Keystroke::TooLong => step == (GetsStep::Continue { beep: true }) && final(session).len == len
                        && final(line)@ == drawn(old(line)@, at) && final(buf)@ == old(buf)@,
                    Keystroke::Store => {
                        let stored = if at < old(line).limit {
                            LineView { buffer: old(line).buffer@.update(at, ch), ..old(line)@ }
                        } else {
                            old(line)@
                        };
                        &&& step == (GetsStep::Continue { beep: false })
                        &&& final(session).len == len + 1
                        &&& final(line)@ == drawn(stored, draw_at(old(session).prompt_len, (len + 1) as usize, old(line).limit))
                        &&& final(buf)@ == old(buf)@.update(len as int, ch)
                    },
                },
            }
        }),
{
    let len = session.len;
    let at = line.cursor;
    let ch = match key {
        None => {
            let end = line.lastchar;
            line.buffer.set(end, 0);
            clear_line(line);
            return GetsStep::Finished { result: -1, end_of_input: true };
        },
        Some(ch) => ch,
    };
    match c_gets_classify(ch, len) {
        Keystroke::Abort => {
            clear_line(line);
            GetsStep::Finished { result: -1, end_of_input: false }
        },
        Keystroke::Terminate => {
            buf[len] = ch;
            clear_line(line);
            GetsStep::Finished { result: len as i32, end_of_input: false }
        },
        Keystroke::Erase => {
            session.len = len - 1;
            set_blank(line, session);
            GetsStep::Continue { beep: false }
        },
        Keystroke::TooLong => {
            set_blank(line, session);
            GetsStep::Continue { beep: true }
        },
        Keystroke::Store => {
            buf[len] = ch;
            if at < line.limit {
                line.buffer.set(at, ch);
            }
            session.len = len + 1;
            set_blank(line, session);
            GetsStep::Continue { beep: false }
        },
    }
}


/// No pending vi operator.
pub const NOP: i32 = 0x00;

/// The pending vi operator deletes its span.
pub const DELETE: i32 = 0x01;

/// The pending vi operator ends in insert mode.
pub const INSERT: i32 = 0x02;

/// The pending vi operator copies its span to the kill buffer.
pub const YANK: i32 = 0x04;

/// The input mode in which typed characters open a gap at the cursor.
pub const MODE_INSERT: i32 = 0;

/// The input mode in which typed characters replace those under the cursor.
pub const MODE_REPLACE: i32 = 1;

/// The input mode in which one typed character replaces the one under the
/// cursor and vi command mode follows.
pub const MODE_REPLACE_1: i32 = 2;

/// The most slots the line buffer and its companions grow to: positions in
/// the line are C `int`s.
pub const EL_LINE_MAX: usize = 0x7FFF_FFFF;

/// Undo information for vi: a saved copy of the line and its cursor.
#[derive(Debug)]
pub struct CUndoT {
    /// The length of the saved line, or -1 when nothing is saved.
    pub len: isize,
    /// The saved cursor.
    pub cursor: i32,
    /// The saved text, as long as the line buffer.
    pub buf: Vec<u32>,
}

/// The undo information by value.
#[verifier::ext_equal]
pub ghost struct UndoView {
    pub len: isize,
    pub cursor: i32,
    pub buf: Seq<u32>,
}

impl View for CUndoT {
    type V = UndoView;

    open spec fn view(&self) -> UndoView {
        UndoView { len: self.len, cursor: self.cursor, buf: self.buf@ }
    }
}

/// Redo information for vi: the command to repeat and the keys it inserted.
#[derive(Debug)]
pub struct CRedoT {
    /// The recorded insert key sequence.
    pub buf: Vec<u32>,
    /// Where the next recorded key goes.
    pub pos: usize,
    /// The usable end of the recording.
    pub lim: usize,
    /// The command to redo.
    pub cmd: u8,
    /// The character that invoked it.
    pub ch: u32,
    /// Its repeat count, 0 when none was typed.
    pub count: i32,
    /// The pending operator it ran under.
    pub action: i32,
}

/// The redo information by value.
#[verifier::ext_equal]
pub ghost struct RedoView {
    pub buf: Seq<u32>,
    pub pos: usize,
    pub lim: usize,
    pub cmd: u8,
    pub ch: u32,
    pub count: i32,
    pub action: i32,
}

impl View for CRedoT {
    type V = RedoView;

    open spec fn view(&self) -> RedoView {
        RedoView {
            buf: self.buf@,
            pos: self.pos,
            lim: self.lim,
            cmd: self.cmd,
            ch: self.ch,
            count: self.count,
            action: self.action,
        }
    }
}

/// The pending vi operator and the line position it was anchored at.
#[derive(Debug, Clone, Copy)]
pub struct CVcmdT {
    /// A combination of `DELETE`, `INSERT` and `YANK`, or `NOP`.
    pub action: i32,
    /// The anchor, a position in the line.
    pub pos: usize,
}

/// The kill buffer, and the emacs mark.
#[derive(Debug)]
pub struct CKillT {
    /// The killed text, as long as the line buffer.
    pub buf: Vec<u32>,
    /// The length of the killed text.
    pub last: usize,
    /// The mark, a position in the line rather than in the kill buffer.
    pub mark: usize,
}

/// The kill buffer by value.
#[verifier::ext_equal]
pub ghost struct KillView {
    pub buf: Seq<u32>,
    pub last: usize,
    pub mark: usize,
}

impl View for CKillT {
    type V = KillView;

    open spec fn view(&self) -> KillView {
        KillView { buf: self.buf@, last: self.last, mark: self.mark }
    }
}

/// The character-editing state of both editors.
#[derive(Debug)]
pub struct ElCharedT {
    pub c_undo: CUndoT,
    pub c_kill: CKillT,
    pub c_redo: CRedoT,
    pub c_vcmd: CVcmdT,
}

/// Which key map reads the next key: the main one (emacs, or vi insert) or
/// the alternative one (vi command mode).
#[derive(Debug, Clone, Copy, PartialEq, Eq, Structural)]
pub enum ElMapCurrent {
    Key,
    Alt,
}

/// The emacs key map type.
pub const MAP_EMACS: i32 = 0;

/// The vi key map type.
pub const MAP_VI: i32 = 1;

/// The key-map state the character editor reads and sets.
#[derive(Debug)]
pub struct ElMapT {
    /// The map that reads the next key.
    pub current: ElMapCurrent,
    /// Which editor's maps are installed: `MAP_EMACS` or `MAP_VI`.
    pub map_type: i32,
    /// Characters that count as part of a word besides letters and digits,
    /// up to the first zero.
    pub wordchars: Option<Vec<u32>>,
}

/// The editor state the character editor reads.
#[derive(Debug, Clone, Copy)]
pub struct ElStateT {
    /// Insert or one of the replace modes.
    pub inputmode: i32,
    /// Whether a numeric argument was typed.
    pub doingarg: i32,
    /// The numeric argument.
    pub argument: i32,
    /// The command being executed.
    pub thiscmd: u8,
    /// The character that invoked it.
    pub thischar: u32,
}

/// An editor: its character set, line, character-editing state, key-map
/// state and command state.
#[derive(Debug)]
pub struct EditLine {
    pub el_charset: Charset,
    pub el_line: ElLine,
    pub el_chared: ElCharedT,
    pub el_map: ElMapT,
    pub el_state: ElStateT,
}

/// The editor by value.
#[verifier::ext_equal]
pub ghost struct EditView {
    pub charset: Charset,
    pub line: LineView,
    pub undo: UndoView,
    pub kill: KillView,
    pub redo: RedoView,
    pub vcmd: CVcmdT,
    pub current: ElMapCurrent,
    pub map_type: i32,
    pub wordchars: Option<Seq<u32>>,
    pub state: ElStateT,
}

/// A word-character set by value.
pub open spec fn wordchars_view(wordchars: Option<Vec<u32>>) -> Option<Seq<u32>> {
    match wordchars {
        Some(w) => Some(w@),
        None => None,
    }
}

impl View for EditLine {
    type V = EditView;

    open spec fn view(&self) -> EditView {
        EditView {
            charset: self.el_charset,
            line: self.el_line@,
            undo: self.el_chared.c_undo@,
            kill: self.el_chared.c_kill@,
            redo: self.el_chared.c_redo@,
            vcmd: self.el_chared.c_vcmd,
            current: self.el_map.current,
            map_type: self.el_map.map_type,
            wordchars: wordchars_view(self.el_map.wordchars),
            state: self.el_state,
        }
    }
}

/// `n` zero slots.
pub open spec fn zeros(n: nat) -> Seq<u32> {
    Seq::new(n, |i: int| 0u32)
}

impl EditLine {
    /// The line is well formed and within its largest size, the kill, undo
    /// and redo buffers are as long as the line buffer, and the operator
    /// anchor lies within the line or one past it.
    pub open spec fn wf(&self) -> bool {
        &&& self.el_line.wf()
        &&& self.el_line.limit + EL_LEAVE <= EL_LINE_MAX
        &&& self.el_chared.c_kill.buf@.len() == self.el_line.buffer@.len()
        &&& self.el_chared.c_undo.buf@.len() == self.el_line.buffer@.len()
        &&& self.el_chared.c_redo.buf@.len() == self.el_line.buffer@.len()
        &&& self.el_chared.c_vcmd.pos <= self.el_line.limit + 1
    }

    /// The state of a freshly initialised editor: all four buffers zeroed
    /// at the initial size, an empty line, nothing saved for undo, an empty
    /// kill buffer, no pending operator, the main emacs key map, no extra
    /// word characters and insert mode with an argument of one.
    pub open spec fn fresh(charset: Charset, line: LineView) -> EditView {
        EditView {
            charset,
            line,
            undo: UndoView { len: -1isize, cursor: 0i32, buf: zeros(EL_BUFSIZ as nat) },
            kill: KillView { buf: zeros(EL_BUFSIZ as nat), last: 0, mark: 0 },
            redo: RedoView { buf: zeros(EL_BUFSIZ as nat), pos: 0, lim: EL_BUFSIZ, cmd: 0, ch: 0, count: 0, action: 0 },
            vcmd: CVcmdT { action: NOP, pos: 0 },
            current: ElMapCurrent::Key,
            map_type: MAP_EMACS,
            wordchars: None,
            state: ElStateT { inputmode: MODE_INSERT, doingarg: 0, argument: 1, thiscmd: 0, thischar: 0 },
        }
    }

    /// A freshly initialised editor for `charset`.
    pub fn new(charset: Charset) -> (el: Self)
        ensures
            el.wf(),
            el@ == Self::fresh(
                charset,
                LineView { buffer: zeros(EL_BUFSIZ as nat), cursor: 0, lastchar: 0, limit: (EL_BUFSIZ - EL_LEAVE) as usize },
            ),
    {
        let line = ElLine::new();
        let el = EditLine {
            el_charset: charset,
            el_line: line,
            el_chared: ElCharedT {
                c_undo: CUndoT { len: -1, cursor: 0, buf: zeroed(EL_BUFSIZ) },
                c_kill: CKillT { buf: zeroed(EL_BUFSIZ), last: 0, mark: 0 },
                c_redo: CRedoT { buf: zeroed(EL_BUFSIZ), pos: 0, lim: EL_BUFSIZ, cmd: 0, ch: 0, count: 0, action: 0 },
                c_vcmd: CVcmdT { action: NOP, pos: 0 },
            },
            el_map: ElMapT { current: ElMapCurrent::Key, map_type: MAP_EMACS, wordchars: None },
            el_state: ElStateT { inputmode: MODE_INSERT, doingarg: 0, argument: 1, thiscmd: 0, thischar: 0 },
        };
        proof {
            assert(el@ =~= Self::fresh(charset, el.el_line@));
        }
        el
    }

    /// A freshly initialised editor whose line holds `text` with the cursor
    /// at `cursor`; `None` when the text does not fit or the cursor lies
    /// past it.
    pub fn with_line(charset: Charset, text: &[u32], cursor: usize) -> (el: Option<Self>)
        ensures
            text@.len() <= EL_BUFSIZ - EL_LEAVE && cursor <= text@.len() ==> (el matches Some(e) && e.wf()
                && e@ == Self::fresh(charset, e.el_line@) && e.el_line.buffer@.subrange(0, text@.len() as int)
                == text@ && e.el_line.buffer@.len() == EL_BUFSIZ && e.el_line.lastchar == text@.len()
                && e.el_line.cursor == cursor && e.el_line.limit == EL_BUFSIZ - EL_LEAVE),
            !(text@.len() <= EL_BUFSIZ - EL_LEAVE && cursor <= text@.len()) ==> el is None,
    {
        match ElLine::with_text(text, cursor) {
            None => None,
            Some(line) => {
                let mut el = EditLine::new(charset);
                el.el_line = line;
                proof {
                    assert(el@ =~= Self::fresh(charset, el.el_line@));
                }
                Some(el)
            },
        }
    }
}

/// A zeroed buffer of `n` slots.
fn zeroed(n: usize) -> (buf: Vec<u32>)
    ensures
        buf@ == zeros(n as nat),
{
    let mut buf: Vec<u32> = Vec::new();
    let mut i: usize = 0;
    while i < n
        invariant
            i <= n,
            buf@ == zeros(i as nat),
        decreases n - i,
    {
        buf.push(0);
        proof {
            assert(buf@ =~= zeros((i + 1) as nat));
        }
        i = i + 1;
    }
    buf
}

/// Grow `buf` to `newsz` slots, zeroing only the added tail.
fn grow(buf: &mut Vec<u32>, newsz: usize)
    requires
        old(buf)@.len() <= newsz,
    ensures
        final(buf)@ == old(buf)@ + zeros((newsz - old(buf)@.len()) as nat),
{
    let ghost start = buf@;
    while buf.len() < newsz
        invariant
            start.len() <= buf@.len() <= newsz,
            buf@ == start + zeros((buf@.len() - start.len()) as nat),
        decreases newsz - buf@.len(),
    {
        let ghost before = buf@;
        buf.push(0);
        proof {
            assert(buf@ =~= start + zeros((buf@.len() - start.len()) as nat));
        }
    }
}

/// `count` slots of `s` from `from` copied to `to`, as an overlapping move
/// does: everything outside the destination is left as it was.
pub open spec fn moved(s: Seq<u32>, from: int, to: int, count: int) -> Seq<u32> {
    s.subrange(0, to) + s.subrange(from, from + count) + s.subrange(to + count, s.len() as int)
}

/// Move `count` slots from `from` to `to`; the ranges may overlap.
fn move_units(buf: &mut Vec<u32>, from: usize, to: usize, count: usize)
    requires
        from + count <= old(buf)@.len(),
        to + count <= old(buf)@.len(),
    ensures
        final(buf)@ == moved(old(buf)@, from as int, to as int, count as int),
{
    let ghost start = buf@;
    let n = buf.len();
    if to <= from {
        let mut i: usize = 0;
        while i < count
            invariant
                to <= from,
                n == start.len(),
                from + count <= n,
                to + count <= n,
                i <= count,
                buf@.len() == start.len(),
                forall|j: int| to <= j < to + i ==> buf@[j] == start[from + (j - to)],
                forall|j: int| 0 <= j < to || to + i <= j < start.len() ==> buf@[j] == start[j],
            decreases count - i,
        {
            let value = buf[from + i];
            buf.set(to + i, value);
            i = i + 1;
        }
    } else {
        let mut i: usize = count;
        while i > 0
            invariant
                from < to,
                n == start.len(),
                from + count <= n,
                to + count <= n,
                i <= count,
                buf@.len() == start.len(),
                forall|j: int| to + i <= j < to + count ==> buf@[j] == start[from + (j - to)],
                forall|j: int| 0 <= j < to + i || to + count <= j < start.len() ==> buf@[j] == start[j],
            decreases i,
        {
            let value = buf[from + i - 1];
            buf.set(to + i - 1, value);
            i = i - 1;
        }
    }
    proof {
        assert(buf@ =~= moved(start, from as int, to as int, count as int));
    }
}

/// Whether `p` occurs in `w` before its first zero.
pub open spec fn terminated_has(w: Seq<u32>, p: u32) -> bool {
    exists|i: int| #![trigger w[i]] 0 <= i < w.len() && w[i] == p && forall|j: int| 0 <= j < i ==> w[j] != 0
}

/// Whether `p` is among the extra word characters: the zero is always
/// found, as the terminator of the set is.
pub open spec fn wordchars_has_spec(wordchars: Option<Seq<u32>>, p: u32) -> bool {
    p == 0 || (wordchars is Some && terminated_has(wordchars->0, p))
}

fn wordchars_has(el: &EditLine, p: u32) -> (has: bool)
    ensures
        has == wordchars_has_spec(el@.wordchars, p),
{
    if p == 0 {
        return true;
    }
    match &el.el_map.wordchars {
        None => false,
        Some(w) => {
            assert(el@.wordchars == Some(w@));
            let mut i: usize = 0;
            while i < w.len()
                invariant
                    p != 0,
                    el@.wordchars == Some(w@),
                    i <= w@.len(),
                    forall|j: int| 0 <= j < i ==> w@[j] != 0 && w@[j] != p,
                decreases w@.len() - i,
            {
                if w[i] == 0 {
                    proof {
                        assert forall|k: int| 0 <= k < w@.len() && w@[k] == p implies !(forall|j: int|
                            0 <= j < k ==> w@[j] != 0) by {
                            assert(k > i);
                            assert(w@[i as int] == 0);
                        }
                    }
                    return false;
                }
                if w[i] == p {
                    proof {
                        let k = i as int;
                        assert(0 <= k < w@.len() && w@[k] == p && forall|j: int| 0 <= j < k ==> w@[j] != 0);
                        assert(terminated_has(w@, p));
                    }
                    return true;
                }
                i = i + 1;
            }
            false
        },
    }
}

/// The three word tests the walkers take: emacs words, vi words (which
/// split punctuation into a class of its own) and vi big words.
#[derive(Debug, Clone, Copy, PartialEq, Eq, Structural)]
pub enum WordTest {
    Emacs,
    Vi,
    ViBig,
}

/// The class of `c` under `test`: 0 for what separates words. The emacs
/// and big-word tests give 0 or 1; the vi test gives 1 for letters, digits
/// and word characters and 2 for other printable non-space characters.
pub open spec fn word_class_spec(v: EditView, test: WordTest, c: u32) -> i32 {
    match test {
        WordTest::Emacs => if iswalnum_spec(v.charset, c) || wordchars_has_spec(v.wordchars, c) {
            1i32
        } else {
            0i32
        },
        WordTest::Vi => if iswalnum_spec(v.charset, c) || wordchars_has_spec(v.wordchars, c) {
            1i32
        } else if iswgraph_spec(v.charset, c) {
            2i32
        } else {
            0i32
        },
        WordTest::ViBig => if !iswspace_spec(v.charset, c) {
            1i32
        } else {
            0i32
        },
    }
}

/// The emacs word test: 1 for letters, digits and word characters, else 0.
pub fn ce_is_word(el: &EditLine, p: u32) -> (class: i32)
    ensures
        class == word_class_spec(el@, WordTest::Emacs, p),
{
    if iswalnum(el.el_charset, p) || wordchars_has(el, p) {
        1
    } else {
        0
    }
}

/// The vi word test: 1 for letters, digits and word characters, 2 for
/// punctuation, 0 for white space and non-printables.
pub fn cv_is_word(el: &EditLine, p: u32) -> (class: i32)
    ensures
        class == word_class_spec(el@, WordTest::Vi, p),
{
    if iswalnum(el.el_charset, p) || wordchars_has(el, p) {
        1
    } else if iswgraph(el.el_charset, p) {
        2
    } else {
        0
    }
}

/// The vi big-word test: 1 for everything but white space.
pub fn cv_is_big_word(el: &EditLine, p: u32) -> (class: i32)
    ensures
        class == word_class_spec(el@, WordTest::ViBig, p),
{
    if iswspace(el.el_charset, p) {
        0
    } else {
        1
    }
}

/// The class of `p` under `test`.
pub fn word_class(el: &EditLine, test: WordTest, p: u32) -> (class: i32)
    ensures
        class == word_class_spec(el@, test, p),
{
    match test {
        WordTest::Emacs => ce_is_word(el, p),
        WordTest::Vi => cv_is_word(el, p),
        WordTest::ViBig => cv_is_big_word(el, p),
    }
}

/// The slot at `i`, or zero outside the buffer.
pub open spec fn line_at_spec(buf: Seq<u32>, i: int) -> u32 {
    if 0 <= i < buf.len() {
        buf[i]
    } else {
        0
    }
}

pub(crate) fn line_at(el: &EditLine, i: usize) -> (c: u32)
    ensures
        c == line_at_spec(el@.line.buffer, i as int),
{
    if i < el.el_line.buffer.len() {
        el.el_line.buffer[i]
    } else {
        0
    }
}

/// The class under `test` of the slot at `i`.
pub open spec fn class_at(v: EditView, test: WordTest, i: int) -> i32 {
    word_class_spec(v, test, line_at_spec(v.line.buffer, i))
}

/// What a scan over the line moves across.
#[derive(Debug, Clone, Copy)]
pub enum Run {
    /// Separators under the test.
    Gap(WordTest),
    /// Anything but separators under the test.
    Word(WordTest),
    /// The one class under the test.
    Class(WordTest, i32),
    /// White space.
    Space,
}

/// Whether a scan for `run` moves across the slot at `i`.
pub open spec fn keeps(v: EditView, run: Run, i: int) -> bool {
    match run {
        Run::Gap(test) => class_at(v, test, i) == 0,
        Run::Word(test) => class_at(v, test, i) != 0,
        Run::Class(test, class) => class_at(v, test, i) == class,
        Run::Space => iswspace_spec(v.charset, line_at_spec(v.line.buffer, i)),
    }
}

/// The first position from `p` upwards that is `high` or not kept.
pub open spec fn scan_up(v: EditView, run: Run, p: int, high: int) -> int
    decreases high - p,
{
    if p < high && keeps(v, run, p) {
        scan_up(v, run, p + 1, high)
    } else {
        p
    }
}

/// The first position from `p` downwards that is below `low` or not kept.
pub open spec fn scan_down(v: EditView, run: Run, p: int, low: int) -> int
    decreases p - low + 1,
{
    if p >= low && keeps(v, run, p) {
        scan_down(v, run, p - 1, low)
    } else {
        p
    }
}

proof fn lemma_scan_up_bounds(v: EditView, run: Run, p: int, high: int)
    ensures
        p <= scan_up(v, run, p, high),
        p <= high ==> scan_up(v, run, p, high) <= high,
        p > high ==> scan_up(v, run, p, high) == p,
    decreases high - p,
{
    if p < high && keeps(v, run, p) {
        lemma_scan_up_bounds(v, run, p + 1, high);
    }
}

proof fn lemma_scan_down_bounds(v: EditView, run: Run, p: int, low: int)
    ensures
        scan_down(v, run, p, low) <= p,
        p >= low - 1 ==> scan_down(v, run, p, low) >= low - 1,
    decreases p - low + 1,
{
    if p >= low && keeps(v, run, p) {
        lemma_scan_down_bounds(v, run, p - 1, low);
    }
}

fn keeps_at(el: &EditLine, run: Run, i: usize) -> (kept: bool)
    ensures
        kept == keeps(el@, run, i as int),
{
    let c = line_at(el, i);
    match run {
        Run::Gap(test) => word_class(el, test, c) == 0,
        Run::Word(test) => word_class(el, test, c) != 0,
        Run::Class(test, class) => word_class(el, test, c) == class,
        Run::Space => iswspace(el.el_charset, c),
    }
}

pub(crate) fn scan_forward(el: &EditLine, run: Run, p: usize, high: usize) -> (end: usize)
    ensures
        end == scan_up(el@, run, p as int, high as int),
        p <= end,
        p <= high ==> end <= high,
{
    proof {
        lemma_scan_up_bounds(el@, run, p as int, high as int);
    }
    let mut q = p;
    while q < high && keeps_at(el, run, q)
        invariant
            p <= q,
            p <= high ==> q <= high,
            scan_up(el@, run, q as int, high as int) == scan_up(el@, run, p as int, high as int),
        decreases high - q,
    {
        q = q + 1;
    }
    q
}

fn scan_backward(el: &EditLine, run: Run, p: isize, low: isize) -> (end: isize)
    requires
        0 <= low,
        -1 <= p,
    ensures
        end == scan_down(el@, run, p as int, low as int),
        -1 <= end <= p,
        p >= low - 1 ==> end >= low - 1,
{
    proof {
        lemma_scan_down_bounds(el@, run, p as int, low as int);
    }
    let mut q = p;
    while q >= low && keeps_at(el, run, q as usize)
        invariant
            0 <= low,
            -1 <= q <= p,
            scan_down(el@, run, q as int, low as int) == scan_down(el@, run, p as int, low as int),
        decreases q - low + 1,
    {
        q = q - 1;
    }
    q
}

/// `n` emacs-style word moves forward from `p`: each skips the gap, then
/// the word, never past `high`.
pub open spec fn next_word_spec(v: EditView, test: WordTest, p: int, high: int, n: int) -> int
    decreases n,
{
    if n <= 0 {
        p
    } else {
        next_word_spec(v, test, scan_up(v, Run::Word(test), scan_up(v, Run::Gap(test), p, high), high), high, n - 1)
    }
}

/// `n` emacs-style word moves back from before `q`: each skips the gap,
/// then the word, never below `low`.
pub open spec fn prev_word_spec(v: EditView, test: WordTest, q: int, low: int, n: int) -> int
    decreases n,
{
    if n <= 0 {
        q
    } else {
        prev_word_spec(v, test, scan_down(v, Run::Word(test), scan_down(v, Run::Gap(test), q, low), low), low, n - 1)
    }
}

/// `n` vi-style word moves forward from `p`: each crosses the run of the
/// class it starts in, then the white space after it, except that the last
/// move of a pending change keeps the white space.
pub open spec fn cv_next_spec(v: EditView, test: WordTest, p: int, high: int, n: int) -> int
    decreases n,
{
    if n <= 0 {
        p
    } else {
        let q = if p < high {
            scan_up(v, Run::Class(test, class_at(v, test, p)), p, high)
        } else {
            p
        };
        let r = if n - 1 != 0 || v.vcmd.action != (DELETE | INSERT) {
            scan_up(v, Run::Space, q, high)
        } else {
            q
        };
        cv_next_spec(v, test, r, high, n - 1)
    }
}

/// Where `n` vi-style word moves back from before `q + 1` end: each skips
/// white space, then crosses the run of one class; reaching below `low`
/// ends the move at `low`.
pub open spec fn cv_prev_spec(v: EditView, test: WordTest, q: int, low: int, n: int) -> int
    decreases n,
{
    if n <= 0 {
        q + 1
    } else {
        let a = scan_down(v, Run::Space, q, low + 1);
        if a < low {
            low
        } else {
            let c = scan_down(v, Run::Class(test, class_at(v, test, a)), a, low);
            if c < low {
                low
            } else {
                cv_prev_spec(v, test, c, low, n - 1)
            }
        }
    }
}

/// `n` vi-style moves to word ends from `q`: each skips white space, then
/// crosses the run of one class.
pub open spec fn end_word_spec(v: EditView, test: WordTest, q: int, high: int, n: int) -> int
    decreases n,
{
    if n <= 0 {
        q
    } else {
        let a = scan_up(v, Run::Space, q, high);
        let c = if a < high {
            scan_up(v, Run::Class(test, class_at(v, test, a)), a, high)
        } else {
            a
        };
        end_word_spec(v, test, c, high, n - 1)
    }
}

/// Where the emacs word move back from `p` lands: on the first character
/// of the last word crossed, and never below `low`.
pub open spec fn prev_word_start(v: EditView, test: WordTest, p: int, low: int, n: int) -> int {
    let r = prev_word_spec(v, test, p - 1, low, n) + 1;
    if r < low {
        low
    } else {
        r
    }
}

proof fn lemma_prev_word_below(v: EditView, test: WordTest, q: int, low: int, n: int)
    ensures
        prev_word_spec(v, test, q, low, n) <= q,
    decreases n,
{
    if n > 0 {
        let gap = scan_down(v, Run::Gap(test), q, low);
        lemma_scan_down_bounds(v, Run::Gap(test), q, low);
        lemma_scan_down_bounds(v, Run::Word(test), gap, low);
        lemma_prev_word_below(v, test, scan_down(v, Run::Word(test), gap, low), low, n - 1);
    }
}

/// The emacs word move forward: `n` times skip the gap, then the word.
/// The result never passes `high` unless `p` already did.
pub fn c_next_word(el: &EditLine, p: usize, high: usize, n: i32, test: WordTest) -> (end: usize)
    ensures
        end == next_word_spec(el@, test, p as int, high as int, n as int),
{
    let mut q = p;
    let mut k: i32 = 0;
    while k < n
        invariant
            0 <= k,
            n > 0 ==> k <= n,
            n <= 0 ==> k == 0,
            next_word_spec(el@, test, q as int, high as int, n - k) == next_word_spec(
                el@,
                test,
                p as int,
                high as int,
                n as int,
            ),
        decreases n - k,
    {
        let gap_end = scan_forward(el, Run::Gap(test), q, high);
        q = scan_forward(el, Run::Word(test), gap_end, high);
        k = k + 1;
    }
    q
}

/// The emacs word move back: from the character before `p`, `n` times skip
/// the gap, then the word, and land on the first character of the last
/// word crossed, never below `low`.
pub fn c_prev_word(el: &EditLine, p: usize, low: usize, n: i32, test: WordTest) -> (start: usize)
    requires
        p <= isize::MAX,
        low <= isize::MAX,
    ensures
        start == prev_word_start(el@, test, p as int, low as int, n as int),
        low <= p ==> low <= start <= p,
{
    let low_i = low as isize;
    let mut q: isize = p as isize - 1;
    let mut k: i32 = 0;
    while k < n
        invariant
            0 <= low_i == low <= isize::MAX,
            -1 <= q <= p - 1,
            p <= isize::MAX,
            0 <= k,
            n > 0 ==> k <= n,
            n <= 0 ==> k == 0,
            prev_word_spec(el@, test, q as int, low as int, n - k) == prev_word_spec(
                el@,
                test,
                p - 1,
                low as int,
                n as int,
            ),
        decreases n - k,
    {
        let gap_start = scan_backward(el, Run::Gap(test), q, low_i);
        q = scan_backward(el, Run::Word(test), gap_start, low_i);
        k = k + 1;
    }
    proof {
        lemma_prev_word_below(el@, test, p - 1, low as int, n as int);
    }
    let r = q + 1;
    if r < low_i {
        low
    } else {
        r as usize
    }
}

/// The vi word move forward: `n` times cross the run of one class and the
/// white space after it, keeping the white space on the last move of a
/// pending change; never past `high`.
pub fn cv_next_word(el: &EditLine, p: usize, high: usize, n: i32, test: WordTest) -> (end: usize)
    ensures
        ({
            let r = cv_next_spec(el@, test, p as int, high as int, n as int);
            end == if r > high { high as int } else { r }
        }),
{
    let mut q = p;
    let mut m: i32 = n;
    while m > 0
        invariant
            m <= n,
            n > 0 ==> 0 <= m,
            n <= 0 ==> m == n,
            cv_next_spec(el@, test, q as int, high as int, m as int) == cv_next_spec(
                el@,
                test,
                p as int,
                high as int,
                n as int,
            ),
        decreases m,
    {
        m = m - 1;
        if q < high {
            let class = word_class(el, test, line_at(el, q));
            q = scan_forward(el, Run::Class(test, class), q, high);
        }
        if m != 0 || el.el_chared.c_vcmd.action != (DELETE | INSERT) {
            q = scan_forward(el, Run::Space, q, high);
        }
    }
    if q > high {
        high
    } else {
        q
    }
}

/// The vi word move back: from the character before `p`, `n` times skip
/// white space and cross the run of one class, landing on the first
/// character of the last run crossed; reaching below `low` gives `low`.
pub fn cv_prev_word(el: &EditLine, p: usize, low: usize, n: i32, test: WordTest) -> (start: usize)
    requires
        p <= isize::MAX,
        low <= isize::MAX,
    ensures
        start == cv_prev_spec(el@, test, p - 1, low as int, n as int),
{
    let low_i = low as isize;
    let mut q: isize = p as isize - 1;
    let mut k: i32 = 0;
    while k < n
        invariant
            0 <= low_i == low <= isize::MAX,
            -1 <= q <= p - 1,
            p <= isize::MAX,
            0 <= k,
            n > 0 ==> k <= n,
            n <= 0 ==> k == 0,
            cv_prev_spec(el@, test, q as int, low as int, n - k) == cv_prev_spec(
                el@,
                test,
                p - 1,
                low as int,
                n as int,
            ),
            k > 0 ==> q >= low,
        decreases n - k,
    {
        let a = if q > low_i {
            scan_backward(el, Run::Space, q, low_i + 1)
        } else {
            q
        };
        if a < low_i {
            return low;
        }
        let class = word_class(el, test, line_at(el, a as usize));
        let c = scan_backward(el, Run::Class(test, class), a, low_i);
        if c < low_i {
            return low;
        }
        q = c;
        k = k + 1;
    }
    proof {
        assert(n - k <= 0);
    }
    (q + 1) as usize
}

/// The vi move to the end of a word: from the character after `p`, `n`
/// times skip white space and cross the run of one class, landing on the
/// last character of the last run crossed.
pub fn cv_end_word(el: &EditLine, p: usize, high: usize, n: i32, test: WordTest) -> (last: usize)
    requires
        p < usize::MAX,
    ensures
        last == end_word_spec(el@, test, p + 1, high as int, n as int) - 1,
{
    let mut q = p + 1;
    let mut k: i32 = 0;
    while k < n
        invariant
            p + 1 <= q,
            0 <= k,
            n > 0 ==> k <= n,
            n <= 0 ==> k == 0,
            end_word_spec(el@, test, q as int, high as int, n - k) == end_word_spec(
                el@,
                test,
                p + 1,
                high as int,
                n as int,
            ),
        decreases n - k,
    {
        let a = scan_forward(el, Run::Space, q, high);
        q = if a < high {
            let class = word_class(el, test, line_at(el, a));
            scan_forward(el, Run::Class(test, class), a, high)
        } else {
            a
        };
        k = k + 1;
    }
    q - 1
}

/// `n` slots of `src` from `from` written over the start of `dst`.
pub(crate) fn copy_prefix(dst: &mut Vec<u32>, src: &Vec<u32>, from: usize, n: usize)
    requires
        from + n <= src@.len(),
        n <= old(dst)@.len(),
    ensures
        final(dst)@ == src@.subrange(from as int, from + n) + old(dst)@.subrange(n as int, old(dst)@.len() as int),
{
    let ghost start = dst@;
    let m = src.len();
    let mut i: usize = 0;
    while i < n
        invariant
            m == src@.len(),
            from + n <= m,
            n <= start.len(),
            i <= n,
            dst@.len() == start.len(),
            forall|j: int| 0 <= j < i ==> dst@[j] == src@[from + j],
            forall|j: int| i <= j < start.len() ==> dst@[j] == start[j],
        decreases n - i,
    {
        dst.set(i, src[from + i]);
        i = i + 1;
    }
    proof {
        assert(dst@ =~= src@.subrange(from as int, from + n) + start.subrange(n as int, start.len() as int));
    }
}

/// `s` written into `buf` from `at`.
fn write_units(buf: &mut Vec<u32>, at: usize, s: &[u32])
    requires
        at + s@.len() <= old(buf)@.len(),
    ensures
        final(buf)@ == old(buf)@.subrange(0, at as int) + s@ + old(buf)@.subrange(at + s@.len(), old(buf)@.len() as int),
{
    let ghost start = buf@;
    let n = s.len();
    let total = buf.len();
    let mut i: usize = 0;
    while i < n
        invariant
            n == s@.len(),
            total == start.len(),
            at + n <= total,
            i <= n,
            buf@.len() == start.len(),
            forall|j: int| at <= j < at + i ==> buf@[j] == s@[j - at],
            forall|j: int| 0 <= j < at || at + i <= j < start.len() ==> buf@[j] == start[j],
        decreases n - i,
    {
        buf.set(at + i, s[i]);
        i = i + 1;
    }
    proof {
        assert(buf@ =~= start.subrange(0, at as int) + s@ + start.subrange(at + n, start.len() as int));
    }
}

/// The editor with the cursor at `cursor`.
pub open spec fn with_cursor(v: EditView, cursor: int) -> EditView {
    EditView { line: LineView { cursor: cursor as usize, ..v.line }, ..v }
}

/// The vi undo snapshot: the line and cursor are saved, and the redo
/// record takes the current command, its character, the typed argument (0
/// when none was typed) and the pending operator, with an empty recording.
pub open spec fn undo_spec(v: EditView) -> EditView {
    let l = v.line.lastchar as int;
    EditView {
        undo: UndoView {
            len: v.line.lastchar as isize,
            cursor: v.line.cursor as i32,
            buf: v.line.buffer.subrange(0, l) + v.undo.buf.subrange(l, v.undo.buf.len() as int),
        },
        redo: RedoView {
            count: if v.state.doingarg != 0 {
                v.state.argument
            } else {
                0i32
            },
            action: v.vcmd.action,
            pos: 0,
            cmd: v.state.thiscmd,
            ch: v.state.thischar,
            ..v.redo
        },
        ..v
    }
}

/// Save the line for vi undo, and start the redo record of the current
/// command. The line itself is not changed.
pub fn cv_undo(el: &mut EditLine)
    requires
        old(el).wf(),
    ensures
        final(el).wf(),
        final(el)@ == undo_spec(old(el)@),
{
    let size = el.el_line.lastchar;
    el.el_chared.c_undo.len = size as isize;
    el.el_chared.c_undo.cursor = el.el_line.cursor as i32;
    copy_prefix(&mut el.el_chared.c_undo.buf, &el.el_line.buffer, 0, size);
    el.el_chared.c_redo.count = if el.el_state.doingarg != 0 {
        el.el_state.argument
    } else {
        0
    };
    el.el_chared.c_redo.action = el.el_chared.c_vcmd.action;
    el.el_chared.c_redo.pos = 0;
    el.el_chared.c_redo.cmd = el.el_state.thiscmd;
    el.el_chared.c_redo.ch = el.el_state.thischar;
    proof {
        assert(el@ =~= undo_spec(old(el)@));
    }
}

/// The kill buffer after copying `size` slots of the line from `ptr`: a
/// negative size copies nothing, and the copy is cut at the end of the
/// line buffer and of the kill buffer. It replaces the kill buffer's start.
pub open spec fn yank_spec(v: EditView, ptr: int, size: int) -> EditView {
    let count = if size < 0 {
        0
    } else {
        size
    };
    let from = if ptr < v.line.buffer.len() {
        ptr
    } else {
        v.line.buffer.len() as int
    };
    let room = v.line.buffer.len() - from;
    let fits = if count < room {
        count
    } else {
        room
    };
    let n = if fits < v.kill.buf.len() {
        fits
    } else {
        v.kill.buf.len() as int
    };
    EditView {
        kill: KillView {
            buf: v.line.buffer.subrange(from, from + n) + v.kill.buf.subrange(n, v.kill.buf.len() as int),
            last: n as usize,
            ..v.kill
        },
        ..v
    }
}

/// Copy `size` characters of the line from `ptr` into the kill buffer,
/// replacing what it held.
pub fn cv_yank(el: &mut EditLine, ptr: usize, size: i32)
    requires
        old(el).wf(),
    ensures
        final(el).wf(),
        final(el)@ == yank_spec(old(el)@, ptr as int, size as int),
{
    let count: usize = if size < 0 {
        0
    } else {
        size as usize
    };
    let len = el.el_line.buffer.len();
    let from = if ptr < len {
        ptr
    } else {
        len
    };
    let room = len - from;
    let fits = if count < room {
        count
    } else {
        room
    };
    let n = if fits < el.el_chared.c_kill.buf.len() {
        fits
    } else {
        el.el_chared.c_kill.buf.len()
    };
    copy_prefix(&mut el.el_chared.c_kill.buf, &el.el_line.buffer, from, n);
    el.el_chared.c_kill.last = n;
    proof {
        assert(el@ =~= yank_spec(old(el)@, ptr as int, size as int));
    }
}

/// The first size in the doubling sequence from `cur` whose growth over
/// `sz` covers `addlen`.
pub open spec fn grow_until(sz: int, addlen: int, cur: int) -> int
    decreases (if addlen - (cur - sz) > 0 {
        addlen - (cur - sz)
    } else {
        0
    }),
    when cur > 0
{
    if cur - sz >= addlen {
        cur
    } else {
        grow_until(sz, addlen, cur * 2)
    }
}

pub proof fn lemma_grow_until(sz: int, addlen: int, cur: int)
    requires
        cur > 0,
    ensures
        grow_until(sz, addlen, cur) >= cur,
        grow_until(sz, addlen, cur) - sz >= addlen,
    decreases (if addlen - (cur - sz) > 0 {
        addlen - (cur - sz)
    } else {
        0
    }),
{
    if cur - sz < addlen {
        lemma_grow_until(sz, addlen, cur * 2);
    }
}

/// The size the buffers grow to for `addlen` more characters: double the
/// current size until the new space alone covers `addlen`.
pub open spec fn enlarge_size(v: EditView, addlen: int) -> int {
    let sz = v.line.limit + EL_LEAVE;
    grow_until(sz, addlen, 2 * sz)
}

/// All four buffers grown to `newsz` slots with zeros, and the limit moved
/// to match.
pub open spec fn enlarged_spec(v: EditView, newsz: int) -> EditView {
    EditView {
        line: LineView {
            buffer: v.line.buffer + zeros((newsz - v.line.buffer.len()) as nat),
            limit: (newsz - EL_LEAVE) as usize,
            ..v.line
        },
        kill: KillView { buf: v.kill.buf + zeros((newsz - v.kill.buf.len()) as nat), ..v.kill },
        undo: UndoView { buf: v.undo.buf + zeros((newsz - v.undo.buf.len()) as nat), ..v.undo },
        redo: RedoView { buf: v.redo.buf + zeros((newsz - v.redo.buf.len()) as nat), ..v.redo },
        ..v
    }
}

/// Grow the line, kill, undo and redo buffers so that `addlen` more
/// characters fit: 1 when they were grown, 0 when the size needed exceeds
/// the largest line and nothing was changed. The redo limit stays where it
/// was.
pub fn ch_enlargebufs(el: &mut EditLine, addlen: usize) -> (grown: i32)
    requires
        old(el).wf(),
    ensures
        final(el).wf(),
        enlarge_size(old(el)@, addlen as int) <= EL_LINE_MAX ==> grown == 1 && final(el)@ == enlarged_spec(
            old(el)@,
            enlarge_size(old(el)@, addlen as int),
        ),
        enlarge_size(old(el)@, addlen as int) > EL_LINE_MAX ==> grown == 0 && final(el)@ == old(el)@,
{
    let sz = el.el_line.limit + EL_LEAVE;
    let mut newsz = sz * 2;
    proof {
        lemma_grow_until(sz as int, addlen as int, 2 * sz);
    }
    if addlen > sz {
        while newsz - sz < addlen && newsz <= EL_LINE_MAX
            invariant
                2 <= sz <= EL_LINE_MAX,
                2 * sz <= newsz <= 2 * EL_LINE_MAX,
                grow_until(sz as int, addlen as int, newsz as int) == grow_until(sz as int, addlen as int, 2 * sz),
            decreases 2 * EL_LINE_MAX - newsz,
        {
            newsz = newsz * 2;
        }
    }
    proof {
        lemma_grow_until(sz as int, addlen as int, newsz as int);
    }
    if newsz > EL_LINE_MAX {
        return 0;
    }
    grow(&mut el.el_line.buffer, newsz);
    grow(&mut el.el_chared.c_kill.buf, newsz);
    grow(&mut el.el_chared.c_undo.buf, newsz);
    grow(&mut el.el_chared.c_redo.buf, newsz);
    el.el_line.limit = newsz - EL_LEAVE;
    proof {
        assert(el@ =~= enlarged_spec(old(el)@, newsz as int));
    }
    1
}

/// A gap of `num` slots opened at the cursor: the text from the cursor to
/// the end, and the slot after it, move up when they still fit, and the end
/// moves up by `num`. The gap keeps whatever the slots held.
pub open spec fn gap_spec(v: EditView, num: int) -> EditView {
    let c = v.line.cursor as int;
    let l = v.line.lastchar as int;
    let buf = v.line.buffer;
    let shifted = if c < l && l + num < buf.len() {
        moved(buf, c, c + num, l - c + 1)
    } else {
        buf
    };
    EditView { line: LineView { buffer: shifted, lastchar: (l + num) as usize, ..v.line }, ..v }
}

/// `c_insert`: a negative count changes nothing; otherwise the buffers grow
/// first when the new end would reach the limit, and a refused growth
/// changes nothing.
pub open spec fn insert_spec(v: EditView, num: int) -> EditView {
    if num < 0 {
        v
    } else if v.line.lastchar + num >= v.line.limit {
        let newsz = enlarge_size(v, num);
        if newsz <= EL_LINE_MAX {
            gap_spec(enlarged_spec(v, newsz), num)
        } else {
            v
        }
    } else {
        gap_spec(v, num)
    }
}

/// Open a gap of `num` characters at the cursor for the caller to fill.
/// The cursor does not move.
pub fn c_insert(el: &mut EditLine, num: i32)
    requires
        old(el).wf(),
    ensures
        final(el).wf(),
        final(el)@ == insert_spec(old(el)@, num as int),
{
    if num < 0 {
        return ;
    }
    let num = num as usize;
    if el.el_line.lastchar + num >= el.el_line.limit {
        proof {
            lemma_grow_until((old(el).el_line.limit + EL_LEAVE) as int, num as int, 2 * (old(el).el_line.limit + EL_LEAVE));
        }
        if ch_enlargebufs(el, num) == 0 {
            return ;
        }
    }
    let cursor = el.el_line.cursor;
    let lastchar = el.el_line.lastchar;
    if cursor < lastchar && lastchar + num < el.el_line.buffer.len() {
        move_units(&mut el.el_line.buffer, cursor, cursor + num, lastchar - cursor + 1);
    }
    el.el_line.lastchar = lastchar + num;
    proof {
        let v = old(el)@;
        let w = if v.line.lastchar + num >= v.line.limit {
            enlarged_spec(v, enlarge_size(v, num as int))
        } else {
            v
        };
        assert(el@ =~= gap_spec(w, num as int));
    }
}

/// `c_delafter`: the count is cut to the characters from the cursor to the
/// end, the undo snapshot is taken and the counted text goes to the kill
/// buffer, even for a count of zero; then a positive count slides the rest
/// of the line down over it.
pub open spec fn delafter_spec(v: EditView, num: int) -> EditView {
    let c = v.line.cursor as int;
    let l = v.line.lastchar as int;
    let n = if c + num > l {
        l - c
    } else {
        num
    };
    let w = yank_spec(undo_spec(v), c, n);
    if n > 0 {
        EditView {
            line: LineView { buffer: moved(w.line.buffer, c + n, c, l - c - n + 1), lastchar: (l - n) as usize, ..w.line },
            ..w
        }
    } else {
        w
    }
}

/// Delete `num` characters from the cursor on, keeping them in the kill
/// buffer. The cursor does not move.
pub fn c_delafter(el: &mut EditLine, num: i32)
    requires
        old(el).wf(),
    ensures
        final(el).wf(),
        final(el)@ == delafter_spec(old(el)@, num as int),
{
    let cursor = el.el_line.cursor;
    let lastchar = el.el_line.lastchar;
    let mut num = num;
    if cursor as i64 + num as i64 > lastchar as i64 {
        num = (lastchar as i64 - cursor as i64) as i32;
    }
    cv_undo(el);
    cv_yank(el, cursor, num);
    if num > 0 {
        let n = num as usize;
        move_units(&mut el.el_line.buffer, cursor + n, cursor, lastchar - cursor - n + 1);
        el.el_line.lastchar = lastchar - n;
    }
    proof {
        let v = old(el)@;
        let w = yank_spec(undo_spec(v), cursor as int, num as int);
        if num > 0 {
            assert(el@ =~= EditView {
                line: LineView {
                    buffer: moved(w.line.buffer, cursor + num, cursor as int, lastchar - cursor - num + 1),
                    lastchar: (lastchar - num) as usize,
                    ..w.line
                },
                ..w
            });
        }
    }
}

/// `c_delbefore`: the count is cut to the characters before the cursor,
/// the undo snapshot is taken and the counted text goes to the kill
/// buffer, even for a count of zero; then a positive count slides the text
/// from the cursor down over it.
pub open spec fn delbefore_spec(v: EditView, num: int) -> EditView {
    let c = v.line.cursor as int;
    let l = v.line.lastchar as int;
    let n = if c - num < 0 {
        c
    } else {
        num
    };
    let start = if c - n > 0 {
        c - n
    } else {
        0
    };
    let w = yank_spec(undo_spec(v), start, n);
    if n > 0 {
        EditView {
            line: LineView {
                buffer: if c <= l {
                    moved(w.line.buffer, c, c - n, l - c + 1)
                } else {
                    w.line.buffer
                },
                lastchar: if l >= n {
                    (l - n) as usize
                } else {
                    0
                },
                ..w.line
            },
            ..w
        }
    } else {
        w
    }
}

/// Delete `num` characters before the cursor, keeping them in the kill
/// buffer. The cursor does not move: the caller moves it back by the count.
pub fn c_delbefore(el: &mut EditLine, num: i32)
    requires
        old(el).wf(),
    ensures
        final(el).wf(),
        final(el)@ == delbefore_spec(old(el)@, num as int),
{
    let cursor = el.el_line.cursor;
    let lastchar = el.el_line.lastchar;
    let mut num = num;
    if (cursor as i64) - (num as i64) < 0 {
        num = cursor as i32;
    }
    let start: usize = if cursor as i64 - num as i64 > 0 {
        (cursor as i64 - num as i64) as usize
    } else {
        0
    };
    cv_undo(el);
    cv_yank(el, start, num);
    if num > 0 {
        let n = num as usize;
        if cursor <= lastchar {
            move_units(&mut el.el_line.buffer, cursor, cursor - n, lastchar - cursor + 1);
        }
        el.el_line.lastchar = if lastchar >= n {
            lastchar - n
        } else {
            0
        };
    }
    proof {
        let v = old(el)@;
        let w = yank_spec(undo_spec(v), start as int, num as int);
        if num > 0 {
            assert(el@ =~= EditView {
                line: LineView {
                    buffer: if cursor <= lastchar {
                        moved(w.line.buffer, cursor as int, cursor - num, lastchar - cursor + 1)
                    } else {
                        w.line.buffer
                    },
                    lastchar: if lastchar >= num {
                        (lastchar - num) as usize
                    } else {
                        0
                    },
                    ..w.line
                },
                ..w
            });
        }
    }
}

/// `cv_delfini`: a pending change first switches to the main key map; the
/// operator's span runs between its anchor and the cursor, one character
/// when they meet; the cursor goes to the anchor and the span is yanked,
/// deleted forward or deleted backward; the cursor ends on the anchor after
/// a yank and on the span's start after a delete, and the operator is
/// cleared. The flag is set for the forward delete, the one case that
/// redraws the cursor.
pub open spec fn delfini_spec(v: EditView) -> (EditView, bool) {
    let action = v.vcmd.action;
    let v1 = if (action & INSERT) != 0 {
        EditView { current: ElMapCurrent::Key, ..v }
    } else {
        v
    };
    let anchor = v.vcmd.pos as int;
    let moved_to = v.line.cursor as int;
    let start = if anchor < moved_to {
        anchor
    } else {
        moved_to
    };
    let len = if anchor == moved_to {
        1
    } else if anchor < moved_to {
        moved_to - anchor
    } else {
        anchor - moved_to
    };
    let v2 = with_cursor(v1, anchor);
    let yank = (action & YANK) != 0;
    let v3 = if yank {
        yank_spec(v2, start, len)
    } else if anchor == start {
        delafter_spec(v2, len)
    } else {
        delbefore_spec(v2, len)
    };
    let v4 = with_cursor(
        v3,
        if yank {
            anchor
        } else {
            start
        },
    );
    (EditView { vcmd: CVcmdT { action: NOP, ..v4.vcmd }, ..v4 }, !yank && anchor == start)
}

/// Finish a pending vi operator over the span its motion covered. The
/// result tells the caller to redraw the cursor.
pub fn cv_delfini(el: &mut EditLine) -> (redraw: bool)
    requires
        old(el).wf(),
    ensures
        final(el).wf(),
        (final(el)@, redraw) == delfini_spec(old(el)@),
{
    let action = el.el_chared.c_vcmd.action;
    if action & INSERT != 0 {
        el.el_map.current = ElMapCurrent::Key;
    }
    let anchor = el.el_chared.c_vcmd.pos;
    let moved_to = el.el_line.cursor;
    let start = if anchor < moved_to {
        anchor
    } else {
        moved_to
    };
    let len = if anchor == moved_to {
        1
    } else if anchor < moved_to {
        moved_to - anchor
    } else {
        anchor - moved_to
    };
    el.el_line.cursor = anchor;
    let ghost v2 = el@;
    let redraw;
    if action & YANK != 0 {
        cv_yank(el, start, len as i32);
        el.el_line.cursor = anchor;
        redraw = false;
    } else if anchor == start {
        c_delafter(el, len as i32);
        el.el_line.cursor = start;
        redraw = true;
    } else {
        c_delbefore(el, len as i32);
        el.el_line.cursor = start;
        redraw = false;
    }
    el.el_chared.c_vcmd.action = NOP;
    proof {
        let (expected, flag) = delfini_spec(old(el)@);
        assert(v2 =~= with_cursor(
            if (action & INSERT) != 0 {
                EditView { current: ElMapCurrent::Key, ..old(el)@ }
            } else {
                old(el)@
            },
            anchor as int,
        ));
        assert(el@ =~= expected);
    }
    redraw
}

/// The editor after `s` was written at the cursor, which moves past it.
/// The text is only written where it fits in the buffer.
pub open spec fn filled_spec(v: EditView, s: Seq<u32>) -> EditView {
    let c = v.line.cursor as int;
    let buf = v.line.buffer;
    EditView {
        line: LineView {
            buffer: if c + s.len() <= buf.len() {
                buf.subrange(0, c) + s + buf.subrange(c + s.len(), buf.len() as int)
            } else {
                buf
            },
            cursor: (c + s.len()) as usize,
            ..v.line
        },
        ..v
    }
}

/// `el_winsertstr`: an empty string is refused (-1); the buffers grow first
/// when the new end would reach the limit, and a refused growth changes
/// nothing (-1); otherwise a gap is opened as `c_insert` opens it, the
/// string is written into it and the cursor moves past it (0).
pub open spec fn winsert_spec(v: EditView, s: Seq<u32>) -> (EditView, i32) {
    let len = s.len() as int;
    let needs = v.line.lastchar + len >= v.line.limit;
    if len == 0 || (needs && enlarge_size(v, len) > EL_LINE_MAX) {
        (v, -1i32)
    } else {
        let w = if needs {
            enlarged_spec(v, enlarge_size(v, len))
        } else {
            v
        };
        (filled_spec(insert_spec(w, len), s), 0i32)
    }
}

/// Insert `s` at the cursor and leave the cursor after it: 0, or -1 when
/// `s` is empty or the line cannot grow to hold it. The buffers grow first
/// when the new end would reach the limit, and the gap is opened as
/// `c_insert` opens it.
pub fn el_winsertstr(el: &mut EditLine, s: &[u32]) -> (result: i32)
    requires
        old(el).wf(),
        old(el).el_line.cursor <= old(el).el_line.lastchar,
    ensures
        final(el).wf(),
        (final(el)@, result) == winsert_spec(old(el)@, s@),
{
    let len = s.len();
    if len == 0 {
        return -1;
    }
    if len > EL_LINE_MAX || el.el_line.lastchar + len >= el.el_line.limit {
        proof {
            lemma_grow_until((old(el).el_line.limit + EL_LEAVE) as int, len as int, 2 * (old(el).el_line.limit + EL_LEAVE));
        }
        if ch_enlargebufs(el, len) == 0 {
            return -1;
        }
    }
    if len > EL_LINE_MAX {
        return -1;
    }
    let ghost w = el@;
    proof {
        lemma_grow_until((w.line.limit + EL_LEAVE) as int, len as int, 2 * (w.line.limit + EL_LEAVE));
    }
    c_insert(el, len as i32);
    let start = el.el_line.cursor;
    if start + len <= el.el_line.buffer.len() {
        write_units(&mut el.el_line.buffer, start, s);
    }
    el.el_line.cursor = start + len;
    proof {
        assert(el@ =~= filled_spec(insert_spec(w, len as int), s@));
    }
    0
}

/// `el_deletestr`: nothing happens unless `n` is positive and at least `n`
/// characters precede the cursor; then they are deleted as `c_delbefore`
/// deletes them and the cursor moves back over them.
pub open spec fn deletestr_spec(v: EditView, n: int) -> EditView {
    if n <= 0 || v.line.cursor < n {
        v
    } else {
        with_cursor(delbefore_spec(v, n), v.line.cursor - n)
    }
}

/// Delete the `n` characters before the cursor and move the cursor back
/// over them, keeping them in the kill buffer; nothing happens when `n` is
/// not positive or fewer than `n` characters precede the cursor.
pub fn el_deletestr(el: &mut EditLine, n: i32)
    requires
        old(el).wf(),
    ensures
        final(el).wf(),
        final(el)@ == deletestr_spec(old(el)@, n as int),
{
    if n <= 0 {
        return ;
    }
    let count = n as usize;
    if el.el_line.cursor < count {
        return ;
    }
    c_delbefore(el, n);
    el.el_line.cursor = el.el_line.cursor - count;
    proof {
        assert(el@ =~= with_cursor(delbefore_spec(old(el)@, n as int), old(el).el_line.cursor - n));
    }
}

/// `el_deletestr1`: the range `[start, end)` is refused (0) when it is
/// empty, reaches the last character of the line or starts before the
/// line. Otherwise as many characters as follow `end`, at most the range's
/// length, are copied down to `start` and the end moves back by that many;
/// the result is the requested length and the cursor stays.
pub open spec fn deletestr1_spec(v: EditView, start: int, end: int) -> (EditView, i32) {
    let l = v.line.lastchar as int;
    if end <= start || start >= l || end >= l || start < 0 {
        (v, 0i32)
    } else {
        let len = if end - start > l - end {
            l - end
        } else {
            end - start
        };
        (
            EditView {
                line: LineView { buffer: moved(v.line.buffer, end, start, len), lastchar: (l - len) as usize, ..v.line },
                ..v
            },
            (end - start) as i32,
        )
    }
}

/// Delete the characters of `[start, end)` as `deletestr1_spec` says.
pub fn el_deletestr1(el: &mut EditLine, start: i32, end: i32) -> (result: i32)
    requires
        old(el).wf(),
    ensures
        final(el).wf(),
        (final(el)@, result) == deletestr1_spec(old(el)@, start as int, end as int),
{
    if end <= start {
        return 0;
    }
    let line_length = el.el_line.lastchar as i32;
    if start >= line_length || end >= line_length {
        return 0;
    }
    if start < 0 {
        return 0;
    }
    let mut len = (end - start) as usize;
    let tail = (line_length - end) as usize;
    if len > tail {
        len = tail;
    }
    let from = end as usize;
    let to = start as usize;
    move_units(&mut el.el_line.buffer, from, to, len);
    el.el_line.lastchar = el.el_line.lastchar - len;
    proof {
        let (expected, _) = deletestr1_spec(old(el)@, start as int, end as int);
        assert(el@ =~= expected);
    }
    end - start
}

/// `el_wreplacestr`: an empty string is refused (-1); the buffers grow
/// first when the string reaches the limit, and a refused growth changes
/// nothing (-1). Otherwise the string replaces the start of the buffer, a
/// zero follows it, the end is its length and a cursor past it is pulled
/// back to it (0).
pub open spec fn wreplacestr_spec(v: EditView, s: Seq<u32>) -> (EditView, i32) {
    let len = s.len() as int;
    if len == 0 {
        (v, -1i32)
    } else if len >= v.line.limit && enlarge_size(v, len) > EL_LINE_MAX {
        (v, -1i32)
    } else {
        let w = if len >= v.line.limit {
            enlarged_spec(v, enlarge_size(v, len))
        } else {
            v
        };
        let buf = w.line.buffer;
        (
            EditView {
                line: LineView {
                    buffer: s + seq![0u32] + buf.subrange(len + 1, buf.len() as int),
                    lastchar: len as usize,
                    cursor: if w.line.cursor > len {
                        len as usize
                    } else {
                        w.line.cursor
                    },
                    ..w.line
                },
                ..w
            },
            0i32,
        )
    }
}

/// Replace the whole line with `s`, as `wreplacestr_spec` says.
pub fn el_wreplacestr(el: &mut EditLine, s: &[u32]) -> (result: i32)
    requires
        old(el).wf(),
    ensures
        final(el).wf(),
        (final(el)@, result) == wreplacestr_spec(old(el)@, s@),
{
    let len = s.len();
    if len == 0 {
        return -1;
    }
    if len >= el.el_line.limit {
        proof {
            lemma_grow_until((old(el).el_line.limit + EL_LEAVE) as int, len as int, 2 * (old(el).el_line.limit + EL_LEAVE));
        }
        if ch_enlargebufs(el, len) == 0 {
            return -1;
        }
    }
    let ghost w = el@;
    write_units(&mut el.el_line.buffer, 0, s);
    el.el_line.buffer.set(len, 0);
    el.el_line.lastchar = len;
    if el.el_line.cursor > len {
        el.el_line.cursor = len;
    }
    proof {
        let (expected, _) = wreplacestr_spec(old(el)@, s@);
        assert(el@.line.buffer =~= expected.line.buffer);
        assert(el@ =~= expected);
    }
    0
}

/// Move the cursor by `n`, clamped to the line, and give its position; a
/// zero move changes nothing.
pub fn el_cursor(el: &mut EditLine, n: i32) -> (position: i32)
    requires
        old(el).wf(),
    ensures
        final(el).wf(),
        n == 0 ==> final(el)@ == old(el)@,
        n != 0 ==> final(el)@ == with_cursor(
            old(el)@,
            ({
                let moved = old(el).el_line.cursor + n;
                if moved < 0 {
                    0
                } else if moved > old(el).el_line.lastchar {
                    old(el).el_line.lastchar as int
                } else {
                    moved
                }
            }),
        ),
        position == final(el).el_line.cursor,
{
    if n != 0 {
        let moved = el.el_line.cursor as i64 + n as i64;
        let lastchar = el.el_line.lastchar;
        el.el_line.cursor = if moved < 0 {
            0
        } else if moved > lastchar as i64 {
            lastchar
        } else {
            moved as usize
        };
        proof {
            let m = old(el).el_line.cursor + n;
            assert(el@ =~= with_cursor(
                old(el)@,
                if m < 0 {
                    0
                } else if m > old(el).el_line.lastchar {
                    old(el).el_line.lastchar as int
                } else {
                    m
                },
            ));
        }
    }
    el.el_line.cursor as i32
}

/// The editor's buffers are consistent: the line is well formed within its
/// largest size and the kill and undo buffers are as long as it.
pub open spec fn view_wf(v: EditView) -> bool {
    &&& v.line.buffer.len() == v.line.limit + EL_LEAVE
    &&& v.line.limit + EL_LEAVE <= EL_LINE_MAX
    &&& v.line.cursor <= v.line.limit + 1
    &&& v.line.lastchar <= v.line.limit + 1
    &&& v.kill.buf.len() == v.line.buffer.len()
    &&& v.undo.buf.len() == v.line.buffer.len()
}

/// Deleting after the cursor keeps what it removed: the kill buffer holds
/// exactly the removed characters, and the line is the text before them
/// followed by the text after them.
pub proof fn law_delete_after_is_yankable(v: EditView, num: int)
    requires
        view_wf(v),
        v.line.cursor < v.line.lastchar,
        0 < num,
    ensures
        ({
            let c = v.line.cursor as int;
            let l = v.line.lastchar as int;
            let n = if c + num > l {
                l - c
            } else {
                num
            };
            let w = delafter_spec(v, num);
            &&& w.kill.buf.subrange(0, w.kill.last as int) == v.line.buffer.subrange(c, c + n)
            &&& w.line.buffer.subrange(0, w.line.lastchar as int) == v.line.buffer.subrange(0, c) + v.line.buffer.subrange(
                c + n,
                l,
            )
        }),
{
    let c = v.line.cursor as int;
    let l = v.line.lastchar as int;
    let n = if c + num > l {
        l - c
    } else {
        num
    };
    let w = delafter_spec(v, num);
    assert(w.kill.buf.subrange(0, w.kill.last as int) =~= v.line.buffer.subrange(c, c + n));
    assert(w.line.buffer.subrange(0, w.line.lastchar as int) =~= v.line.buffer.subrange(0, c) + v.line.buffer.subrange(
        c + n,
        l,
    ));
}

/// Deleting before the cursor keeps what it removed: the kill buffer holds
/// exactly the removed characters, and the line is the text before them
/// followed by the text from the cursor on.
pub proof fn law_delete_before_is_yankable(v: EditView, num: int)
    requires
        view_wf(v),
        0 < v.line.cursor <= v.line.lastchar,
        0 < num,
    ensures
        ({
            let c = v.line.cursor as int;
            let l = v.line.lastchar as int;
            let n = if c - num < 0 {
                c
            } else {
                num
            };
            let w = delbefore_spec(v, num);
            &&& w.kill.buf.subrange(0, w.kill.last as int) == v.line.buffer.subrange(c - n, c)
            &&& w.line.buffer.subrange(0, w.line.lastchar as int) == v.line.buffer.subrange(0, c - n)
                + v.line.buffer.subrange(c, l)
        }),
{
    let c = v.line.cursor as int;
    let l = v.line.lastchar as int;
    let n = if c - num < 0 {
        c
    } else {
        num
    };
    let w = delbefore_spec(v, num);
    assert(w.kill.buf.subrange(0, w.kill.last as int) =~= v.line.buffer.subrange(c - n, c));
    assert(w.line.buffer.subrange(0, w.line.lastchar as int) =~= v.line.buffer.subrange(0, c - n)
        + v.line.buffer.subrange(c, l));
}

/// Deleting as many characters before the cursor as an insertion stored
/// gives back the line's text, its end and the cursor.
/// Where an insertion that stored its string leaves the old text: before
/// the cursor in place, from the cursor on `s.len()` slots later.
proof fn lemma_insert_shifts_the_tail(v: EditView, s: Seq<u32>)
    requires
        view_wf(v),
        v.line.cursor <= v.line.lastchar,
        s.len() > 0,
        winsert_spec(v, s).0.line.lastchar == v.line.lastchar + s.len(),
    ensures
        ({
            let t = winsert_spec(v, s).0;
            let c = v.line.cursor as int;
            let l = v.line.lastchar as int;
            let len = s.len() as int;
            &&& t.line.cursor == c + len
            &&& t.line.buffer.len() > l + len
            &&& forall|j: int| 0 <= j < c ==> #[trigger] t.line.buffer[j] == v.line.buffer[j]
            &&& forall|j: int| c <= j < l ==> #[trigger] t.line.buffer[j + len] == v.line.buffer[j]
        }),
{
    let len = s.len() as int;
    let needs = v.line.lastchar + len >= v.line.limit;
    let w = if needs {
        enlarged_spec(v, enlarge_size(v, len))
    } else {
        v
    };
    let x = if w.line.lastchar + len >= w.line.limit {
        enlarged_spec(w, enlarge_size(w, len))
    } else {
        w
    };
    lemma_grow_until(v.line.limit + EL_LEAVE, len, 2 * (v.line.limit + EL_LEAVE));
    lemma_grow_until(w.line.limit + EL_LEAVE, len, 2 * (w.line.limit + EL_LEAVE));
    assert(insert_spec(w, len) == gap_spec(x, len));
    assert(forall|j: int| 0 <= j <= v.line.lastchar ==> #[trigger] x.line.buffer[j] == v.line.buffer[j]);
}

/// Deleting as many characters before the cursor as an insertion stored
/// gives back the line's text, its end and the cursor.
pub proof fn law_delete_undoes_insert(v: EditView, s: Seq<u32>)
    requires
        view_wf(v),
        v.line.cursor <= v.line.lastchar,
        s.len() > 0,
        winsert_spec(v, s).0.line.lastchar == v.line.lastchar + s.len(),
    ensures
        ({
            let after = deletestr_spec(winsert_spec(v, s).0, s.len() as int);
            &&& after.line.cursor == v.line.cursor
            &&& after.line.lastchar == v.line.lastchar
            &&& after.line.buffer.subrange(0, v.line.lastchar as int) == v.line.buffer.subrange(
                0,
                v.line.lastchar as int,
            )
        }),
{
    let len = s.len() as int;
    let c = v.line.cursor as int;
    let l = v.line.lastchar as int;
    lemma_insert_shifts_the_tail(v, s);
    let t = winsert_spec(v, s).0;
    let d = delbefore_spec(t, len);
    assert forall|j: int| 0 <= j < l implies #[trigger] d.line.buffer[j] == v.line.buffer[j] by {
        if j < c {
            assert(d.line.buffer[j] == t.line.buffer[j]);
        } else {
            assert(d.line.buffer[j] == t.line.buffer[j + len]);
        }
    }
    assert(d.line.buffer.subrange(0, l) =~= v.line.buffer.subrange(0, l));
}

/// Whether every growth inserting `len` characters needs succeeds: the
/// growth before the gap is opened, and the one opening the gap asks for.
pub open spec fn growth_succeeds(v: EditView, len: int) -> bool {
    let needs = v.line.lastchar + len >= v.line.limit;
    let w = if needs {
        enlarged_spec(v, enlarge_size(v, len))
    } else {
        v
    };
    &&& needs ==> enlarge_size(v, len) <= EL_LINE_MAX
    &&& w.line.lastchar + len >= w.line.limit ==> enlarge_size(w, len) <= EL_LINE_MAX
}

/// Inserting a string splices it into the line at the cursor: an empty
/// string is refused and changes nothing; otherwise, once any growth the
/// line needs succeeds, the text becomes what was before the cursor, the
/// string, then what was from the cursor on, and the cursor moves past the
/// string.
pub proof fn law_insert_string_splices(v: EditView, s: Seq<u32>)
    requires
        view_wf(v),
        v.line.cursor <= v.line.lastchar,
    ensures
        s.len() == 0 ==> winsert_spec(v, s) == (v, -1i32),
        s.len() > 0 && growth_succeeds(v, s.len() as int) ==> ({
            let t = winsert_spec(v, s).0;
            let c = v.line.cursor as int;
            let l = v.line.lastchar as int;
            &&& t.line.lastchar == l + s.len()
            &&& t.line.cursor == c + s.len()
            &&& t.line.buffer.subrange(0, l + s.len()) == v.line.buffer.subrange(0, c) + s + v.line.buffer.subrange(c, l)
        }),
{
    if s.len() > 0 && growth_succeeds(v, s.len() as int) {
        let len = s.len() as int;
        let c = v.line.cursor as int;
        let l = v.line.lastchar as int;
        let needs = v.line.lastchar + len >= v.line.limit;
        let w = if needs {
            enlarged_spec(v, enlarge_size(v, len))
        } else {
            v
        };
        lemma_grow_until(v.line.limit + EL_LEAVE, len, 2 * (v.line.limit + EL_LEAVE));
        lemma_grow_until(w.line.limit + EL_LEAVE, len, 2 * (w.line.limit + EL_LEAVE));
        let x = if w.line.lastchar + len >= w.line.limit {
            enlarged_spec(w, enlarge_size(w, len))
        } else {
            w
        };
        assert(insert_spec(w, len) == gap_spec(x, len));
        assert(x.line.lastchar == l);
        assert(l + len <= EL_LINE_MAX);
        let t = winsert_spec(v, s).0;
        assert(t.line.lastchar == l + len);
        lemma_insert_shifts_the_tail(v, s);
        let g = insert_spec(w, len);
        assert(t == filled_spec(g, s));
        assert(g.line.cursor == c);
        assert(c + len <= g.line.buffer.len());
        let want = v.line.buffer.subrange(0, c) + s + v.line.buffer.subrange(c, l);
        assert forall|j: int| 0 <= j < l + len implies #[trigger] t.line.buffer.subrange(0, l + len)[j] == want[j] by {
            if j < c {
            } else if j < c + len {
                assert(t.line.buffer[j] == s[j - c]);
            } else {
                assert(t.line.buffer[(j - len) + len] == v.line.buffer[j - len]);
            }
        }
        assert(t.line.buffer.subrange(0, l + len) =~= want);
    }
}

} // verus!
