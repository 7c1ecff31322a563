use vstd::prelude::*;

verus! {

/// The signal picker: a search text, its best matches and a selection.
pub struct AddSigState<T> {
    active: bool,
    input: String,
    matches: Vec<(T, String)>,
    selected_index: usize,
}

/// How many matches the picker shows.
pub const MAX_MATCHES: usize = 10;

impl<T> AddSigState<T> {
    pub closed spec fn spec_active(&self) -> bool {
        self.active
    }

    pub closed spec fn spec_input(&self) -> Seq<char> {
        self.input@
    }

    pub closed spec fn spec_matches(&self) -> Seq<(T, String)> {
        self.matches@
    }

    pub closed spec fn spec_selected(&self) -> nat {
        self.selected_index as nat
    }

    /// The selection points at a match, or is zero when there is none.
    pub open spec fn wf(&self) -> bool {
        &&& self.spec_matches().len() <= MAX_MATCHES
        &&& (self.spec_selected() < self.spec_matches().len() || self.spec_selected() == 0)
    }

    pub fn new() -> (r: Self)
        ensures
            r.wf(),
            !r.spec_active(),
            r.spec_input().len() == 0,
            r.spec_matches().len() == 0,
            r.spec_selected() == 0,
    {
        AddSigState { active: false, input: String::new(), matches: Vec::new(), selected_index: 0 }
    }

    /// Opens the picker with an empty search.
    pub fn activate(&mut self)
        ensures
            final(self).wf(),
            final(self).spec_active(),
            final(self).spec_input().len() == 0,
            final(self).spec_matches().len() == 0,
            final(self).spec_selected() == 0,
    {
        self.active = true;
        self.input = String::new();
        self.matches = Vec::new();
        self.selected_index = 0;
    }

    /// Closes the picker and forgets the search.
    pub fn deactivate(&mut self)
        ensures
            final(self).wf(),
            !final(self).spec_active(),
            final(self).spec_input().len() == 0,
            final(self).spec_matches().len() == 0,
            final(self).spec_selected() == 0,
    {
        self.active = false;
        self.input = String::new();
        self.matches = Vec::new();
        self.selected_index = 0;
    }

    pub fn is_active(&self) -> (r: bool)
        ensures
            r == self.spec_active(),
    {
        self.active
    }

    /// A new search text; the selection goes back to the first match.
    pub fn update_search(&mut self, input: String)
        requires
            old(self).wf(),
        ensures
            final(self).wf(),
            final(self).spec_input() == input@,
            final(self).spec_selected() == 0,
            final(self).spec_matches() == old(self).spec_matches(),
            final(self).spec_active() == old(self).spec_active(),
    {
        self.input = input;
        self.selected_index = 0;
    }

    pub fn get_input(&self) -> (r: &str)
        ensures
            r@ == self.spec_input(),
    {
        self.input.as_str()
    }

    /// Keeps the first ten matches and keeps the selection within them.
    pub fn set_matches(&mut self, matches: Vec<(T, String)>)
        requires
            old(self).wf(),
        ensures
            final(self).wf(),
            final(self).spec_matches() == matches@.take(
                if matches@.len() < MAX_MATCHES {
                    matches@.len() as int
                } else {
                    MAX_MATCHES as int
                },
            ),
            final(self).spec_selected() == if old(self).spec_selected() + 1
                <= final(self).spec_matches().len() {
                old(self).spec_selected()
            } else if final(self).spec_matches().len() == 0 {
                0
            } else {
                (final(self).spec_matches().len() - 1) as nat
            },
            final(self).spec_input() == old(self).spec_input(),
            final(self).spec_active() == old(self).spec_active(),
    {
        let mut m = matches;
        m.truncate(MAX_MATCHES);
        assert(m@ =~= matches@.take(
            if matches@.len() < MAX_MATCHES {
                matches@.len() as int
            } else {
                MAX_MATCHES as int
            },
        ));
        self.matches = m;
        let last = self.matches.len().saturating_sub(1);
        if self.selected_index > last {
            self.selected_index = last;
        }
    }

    pub fn get_matches(&self) -> (r: &[(T, String)])
        ensures
            r@ == self.spec_matches(),
    {
        self.matches.as_slice()
    }

    /// Moves the selection down, wrapping to the first match.
    pub fn select_next(&mut self)
        requires
            old(self).wf(),
        ensures
            final(self).wf(),
            final(self).spec_matches() == old(self).spec_matches(),
            final(self).spec_selected() == if old(self).spec_matches().len() == 0 {
                old(self).spec_selected()
            } else {
                ((old(self).spec_selected() + 1) % old(self).spec_matches().len()) as nat
            },
    {
        if self.matches.len() > 0 {
            self.selected_index = (self.selected_index + 1) % self.matches.len();
        }
    }

    /// Moves the selection up, wrapping to the last match.
    pub fn select_prev(&mut self)
        requires
            old(self).wf(),
        ensures
            final(self).wf(),
            final(self).spec_matches() == old(self).spec_matches(),
            final(self).spec_selected() == if old(self).spec_matches().len() == 0 {
                old(self).spec_selected()
            } else if old(self).spec_selected() == 0 {
                (old(self).spec_matches().len() - 1) as nat
            } else {
                (old(self).spec_selected() - 1) as nat
            },
    {
        if self.matches.len() > 0 {
            self.selected_index = if self.selected_index == 0 {
                self.matches.len() - 1
            } else {
                self.selected_index - 1
            };
        }
    }

    pub fn get_selected(&self) -> (r: Option<&(T, String)>)
        ensures
            self.spec_selected() < self.spec_matches().len() ==> r == Some(
                &self.spec_matches()[self.spec_selected() as int],
            ),
            self.spec_selected() >= self.spec_matches().len() ==> r is None,
    {
        if self.selected_index < self.matches.len() {
            Some(&self.matches[self.selected_index])
        } else {
            None
        }
    }

    pub fn get_selected_index(&self) -> (r: usize)
        ensures
            r == self.spec_selected(),
    {
        self.selected_index
    }
}

/// The help window: its lines and how far it is scrolled.
pub struct HelpModalState {
    active: bool,
    content: Vec<String>,
    scroll_offset: usize,
}

impl HelpModalState {
    pub closed spec fn spec_active(&self) -> bool {
        self.active
    }

    pub closed spec fn spec_content(&self) -> Seq<String> {
        self.content@
    }

    pub closed spec fn spec_scroll(&self) -> nat {
        self.scroll_offset as nat
    }

    pub fn new() -> (r: Self)
        ensures
            !r.spec_active(),
            r.spec_content().len() == 0,
            r.spec_scroll() == 0,
    {
        HelpModalState { active: false, content: Vec::new(), scroll_offset: 0 }
    }

    /// Shows `content` from the top.
    pub fn activate(&mut self, content: Vec<String>)
        ensures
            final(self).spec_active(),
            final(self).spec_content() == content@,
            final(self).spec_scroll() == 0,
    {
        self.active = true;
        self.content = content;
        self.scroll_offset = 0;
    }

    pub fn deactivate(&mut self)
        ensures
            !final(self).spec_active(),
            final(self).spec_content().len() == 0,
            final(self).spec_scroll() == 0,
    {
        self.active = false;
        self.content = Vec::new();
        self.scroll_offset = 0;
    }

    pub fn is_active(&self) -> (r: bool)
        ensures
            r == self.spec_active(),
    {
        self.active
    }

    /// Scrolls by `lines`, saturating.
    pub fn scroll_up(&mut self, lines: usize)
        ensures
            final(self).spec_scroll() == if old(self).spec_scroll() + lines > usize::MAX {
                usize::MAX as nat
            } else {
                (old(self).spec_scroll() + lines) as nat
            },
            final(self).spec_content() == old(self).spec_content(),
            final(self).spec_active() == old(self).spec_active(),
    {
        self.scroll_offset = self.scroll_offset.saturating_add(lines);
    }

    /// Scrolls back by `lines`, stopping at the top.
    pub fn scroll_down(&mut self, lines: usize)
        ensures
            final(self).spec_scroll() == if old(self).spec_scroll() < lines {
                0
            } else {
                (old(self).spec_scroll() - lines) as nat
            },
            final(self).spec_content() == old(self).spec_content(),
            final(self).spec_active() == old(self).spec_active(),
    {
        self.scroll_offset = self.scroll_offset.saturating_sub(lines);
    }

    pub fn get_content(&self) -> (r: &[String])
        ensures
            r@ == self.spec_content(),
    {
        self.content.as_slice()
    }

    pub fn get_scroll_offset(&self) -> (r: usize)
        ensures
            r == self.spec_scroll(),
    {
        self.scroll_offset
    }
}

/// The text of each panel.
pub struct ViewState {
    pub execution_lines: Vec<String>,
    pub instruction_lines: Vec<String>,
    pub source_lines: Vec<String>,
    pub signal_lines: Vec<String>,
}

impl Default for ViewState {
    fn default() -> (r: Self)
        ensures
            r.execution_lines@.len() == 0,
            r.instruction_lines@.len() == 0,
            r.source_lines@.len() == 0,
            r.signal_lines@.len() == 0,
    {
        ViewState {
            execution_lines: Vec::new(),
            instruction_lines: Vec::new(),
            source_lines: Vec::new(),
            signal_lines: Vec::new(),
        }
    }
}

pub struct ExecutionSnapshot {
    pub summary_lines: Vec<String>,
    pub instruction_lines: Vec<String>,
}

pub struct SourceSnapshot {
    pub lines: Vec<String>,
}

pub struct SignalSnapshot {
    pub lines: Vec<String>,
}

#[derive(Debug, Clone, Copy, PartialEq, Eq, Structural)]
pub enum LogLevel {
    Error,
    Warn,
    Info,
    Debug,
    Trace,
}

/// A captured log record.
#[derive(Debug, Clone)]
pub struct LogMessage {
    pub level: LogLevel,
    pub message: String,
}

/// How many log records are kept.
pub const LOG_CAPACITY: usize = 1000;

/// Appends a record, dropping the oldest when the buffer is full.
pub fn push_log(buffer: &mut Vec<LogMessage>, message: LogMessage)
    requires
        old(buffer)@.len() <= LOG_CAPACITY,
    ensures
        final(buffer)@ == if old(buffer)@.len() >= LOG_CAPACITY {
            old(buffer)@.drop_first().push(message)
        } else {
            old(buffer)@.push(message)
        },
        final(buffer)@.len() <= LOG_CAPACITY,
{
    if buffer.len() >= LOG_CAPACITY {
        buffer.remove(0);
        assert(buffer@ =~= old(buffer)@.drop_first());
    }
    buffer.push(message);
}

} // verus!
