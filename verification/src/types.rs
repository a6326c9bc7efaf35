//! The data that flows between the parser, the tools and the agent loop,
//! each type with a view over character sequences.
use vstd::prelude::*;

verus! {

/// A request from the model to run one tool.
#[derive(Debug)]
pub struct ToolCall {
    pub tool: String,
    pub cmd: String,
    pub cwd: String,
    pub path: String,
    pub content: String,
    pub old: String,
    pub new: String,
}

pub struct ToolCallView {
    pub tool: Seq<char>,
    pub cmd: Seq<char>,
    pub cwd: Seq<char>,
    pub path: Seq<char>,
    pub content: Seq<char>,
    pub old: Seq<char>,
    pub new: Seq<char>,
}

impl View for ToolCall {
    type V = ToolCallView;

    open spec fn view(&self) -> ToolCallView {
        ToolCallView {
            tool: self.tool@,
            cmd: self.cmd@,
            cwd: self.cwd@,
            path: self.path@,
            content: self.content@,
            old: self.old@,
            new: self.new@,
        }
    }
}

/// A call of `tool` with the given command, working directory, path and content,
/// and no patch texts.
pub open spec fn call_view(
    tool: Seq<char>,
    cmd: Seq<char>,
    cwd: Seq<char>,
    path: Seq<char>,
    content: Seq<char>,
) -> ToolCallView {
    ToolCallView { tool, cmd, cwd, path, content, old: Seq::empty(), new: Seq::empty() }
}

pub open spec fn opt_call_view(o: Option<ToolCall>) -> Option<ToolCallView> {
    match o {
        Some(c) => Some(c@),
        None => None,
    }
}

pub open spec fn calls_view(v: Seq<ToolCall>) -> Seq<ToolCallView> {
    v.map_values(|c: ToolCall| c@)
}

impl ToolCall {
    /// A call of `tool` with the given command, working directory, path and content.
    pub fn build(tool: &str, cmd: String, cwd: String, path: String, content: String) -> (r:
        ToolCall)
        ensures
            r@ == call_view(tool@, cmd@, cwd@, path@, content@),
    {
        ToolCall {
            tool: tool.to_owned(),
            cmd,
            cwd,
            path,
            content,
            old: String::new(),
            new: String::new(),
        }
    }

    /// A field-by-field copy.
    pub fn duplicate(&self) -> (r: ToolCall)
        ensures
            r@ == self@,
    {
        ToolCall {
            tool: self.tool.clone(),
            cmd: self.cmd.clone(),
            cwd: self.cwd.clone(),
            path: self.path.clone(),
            content: self.content.clone(),
            old: self.old.clone(),
            new: self.new.clone(),
        }
    }
}

/// What the JSON decoder made of candidate texts: each text with the tool call it
/// decodes to, or the decoder's reason why it is not a tool call.
pub struct ToolCallDecodings {
    entries: Vec<(String, Result<ToolCall, String>)>,
}

/// The decoding recorded first for `text`; a text that was never recorded does not decode.
pub open spec fn decoded_in(
    entries: Seq<(Seq<char>, Option<ToolCallView>)>,
    text: Seq<char>,
) -> Option<ToolCallView>
    decreases entries.len(),
{
    if entries.len() == 0 {
        None
    } else if entries[0].0 == text {
        entries[0].1
    } else {
        decoded_in(entries.drop_first(), text)
    }
}

/// The reason recorded first for `text`: empty where it decoded or was never recorded.
pub open spec fn reason_in(reasons: Seq<(Seq<char>, Seq<char>)>, text: Seq<char>) -> Seq<char>
    decreases reasons.len(),
{
    if reasons.len() == 0 {
        Seq::empty()
    } else if reasons[0].0 == text {
        reasons[0].1
    } else {
        reason_in(reasons.drop_first(), text)
    }
}

/// The call of a decoding, if it decoded.
pub open spec fn decoded_call(r: Result<ToolCall, String>) -> Option<ToolCallView> {
    match r {
        Ok(c) => Some(c@),
        Err(_) => None,
    }
}

/// The reason of a decoding that failed; empty where it decoded.
pub open spec fn decoding_reason(r: Result<ToolCall, String>) -> Seq<char> {
    match r {
        Ok(_) => Seq::empty(),
        Err(e) => e@,
    }
}

impl ToolCallDecodings {
    pub closed spec fn entries(&self) -> Seq<(Seq<char>, Option<ToolCallView>)> {
        self.entries@.map_values(
            |e: (String, Result<ToolCall, String>)| (e.0@, decoded_call(e.1)),
        )
    }

    pub closed spec fn reasons(&self) -> Seq<(Seq<char>, Seq<char>)> {
        self.entries@.map_values(
            |e: (String, Result<ToolCall, String>)| (e.0@, decoding_reason(e.1)),
        )
    }

    /// The decoder's verdict on `text`.
    pub open spec fn decode(&self, text: Seq<char>) -> Option<ToolCallView> {
        decoded_in(self.entries(), text)
    }

    /// Why `text` does not decode, as the decoder put it.
    pub open spec fn reason(&self, text: Seq<char>) -> Seq<char> {
        reason_in(self.reasons(), text)
    }

    pub fn new() -> (r: ToolCallDecodings)
        ensures
            r.entries() == Seq::<(Seq<char>, Option<ToolCallView>)>::empty(),
            r.reasons() == Seq::<(Seq<char>, Seq<char>)>::empty(),
    {
        let r = ToolCallDecodings { entries: Vec::new() };
        assert(r.entries() =~= Seq::<(Seq<char>, Option<ToolCallView>)>::empty());
        assert(r.reasons() =~= Seq::<(Seq<char>, Seq<char>)>::empty());
        r
    }

    /// Records what `text` decodes to, or why it does not decode.
    pub fn record(&mut self, text: String, decoded: Result<ToolCall, String>)
        ensures
            final(self).entries() == old(self).entries().push((text@, decoded_call(decoded))),
            final(self).reasons() == old(self).reasons().push((text@, decoding_reason(decoded))),
    {
        let ghost before = self.entries();
        let ghost before_reasons = self.reasons();
        let ghost item = (text@, decoded_call(decoded));
        let ghost reason_item = (text@, decoding_reason(decoded));
        self.entries.push((text, decoded));
        assert(self.entries() =~= before.push(item));
        assert(self.reasons() =~= before_reasons.push(reason_item));
    }

    /// Why `text` does not decode (empty where it decodes or was never recorded).
    pub fn reason_for(&self, text: &[char]) -> (r: String)
        ensures
            r@ == self.reason(text@),
    {
        let mut i: usize = 0;
        let ghost rs = self.reasons();
        assert(rs.skip(0) =~= rs);
        while i < self.entries.len()
            invariant
                i <= self.entries@.len(),
                rs == self.reasons(),
                reason_in(rs, text@) == reason_in(rs.skip(i as int), text@),
            decreases self.entries@.len() - i,
        {
            let key = crate::text::chars_of(self.entries[i].0.as_str());
            assert(rs.skip(i as int)[0] == rs[i as int]);
            assert(rs.skip(i as int).drop_first() =~= rs.skip(i + 1));
            if crate::text::eq_chars(&key, text) {
                return match &self.entries[i].1 {
                    Ok(_) => String::new(),
                    Err(e) => e.clone(),
                };
            }
            i = i + 1;
        }
        String::new()
    }

    /// The tool call that `text` decodes to, if any.
    pub fn lookup(&self, text: &[char]) -> (r: Option<ToolCall>)
        ensures
            opt_call_view(r) == self.decode(text@),
    {
        let mut i: usize = 0;
        let ghost es = self.entries();
        assert(es.skip(0) =~= es);
        while i < self.entries.len()
            invariant
                i <= self.entries@.len(),
                es == self.entries(),
                decoded_in(es, text@) == decoded_in(es.skip(i as int), text@),
            decreases self.entries@.len() - i,
        {
            let key = crate::text::chars_of(self.entries[i].0.as_str());
            assert(es.skip(i as int)[0] == es[i as int]);
            assert(es.skip(i as int).drop_first() =~= es.skip(i + 1));
            if crate::text::eq_chars(&key, text) {
                return match &self.entries[i].1 {
                    Ok(c) => Some(c.duplicate()),
                    Err(_) => None,
                };
            }
            i = i + 1;
        }
        None
    }
}

/// A shell command that was run, or refused, with where and whether it succeeded.
#[derive(Debug)]
pub struct ExecutedCommand {
    pub cmd: String,
    pub cwd: String,
    pub success: bool,
}

pub struct ExecutedCommandView {
    pub cmd: Seq<char>,
    pub cwd: Seq<char>,
    pub success: bool,
}

impl View for ExecutedCommand {
    type V = ExecutedCommandView;

    open spec fn view(&self) -> ExecutedCommandView {
        ExecutedCommandView { cmd: self.cmd@, cwd: self.cwd@, success: self.success }
    }
}

/// A file that a tool wrote or patched.
#[derive(Debug)]
pub struct ChangedFile {
    pub action: String,
    pub path: String,
}

pub struct ChangedFileView {
    pub action: Seq<char>,
    pub path: Seq<char>,
}

impl View for ChangedFile {
    type V = ChangedFileView;

    open spec fn view(&self) -> ChangedFileView {
        ChangedFileView { action: self.action@, path: self.path@ }
    }
}

/// The result text of one tool call, with the file it changed and the command it ran.
#[derive(Debug)]
pub struct ToolOutcome {
    pub result: String,
    pub changed_file: Option<ChangedFile>,
    pub command: Option<ExecutedCommand>,
}

pub struct ToolOutcomeView {
    pub result: Seq<char>,
    pub changed_file: Option<ChangedFileView>,
    pub command: Option<ExecutedCommandView>,
}

impl View for ToolOutcome {
    type V = ToolOutcomeView;

    open spec fn view(&self) -> ToolOutcomeView {
        ToolOutcomeView {
            result: self.result@,
            changed_file: match &self.changed_file {
                Some(f) => Some(f@),
                None => None,
            },
            command: match &self.command {
                Some(c) => Some(c@),
                None => None,
            },
        }
    }
}

pub open spec fn outcomes_view(v: Seq<ToolOutcome>) -> Seq<ToolOutcomeView> {
    v.map_values(|o: ToolOutcome| o@)
}

/// One message of the conversation with the model: its role and its content.
#[derive(Debug)]
pub struct ChatMessage {
    pub role: String,
    pub content: String,
}

impl View for ChatMessage {
    type V = (Seq<char>, Seq<char>);

    open spec fn view(&self) -> (Seq<char>, Seq<char>) {
        (self.role@, self.content@)
    }
}

pub open spec fn messages_view(v: Seq<ChatMessage>) -> Seq<(Seq<char>, Seq<char>)> {
    v.map_values(|m: ChatMessage| m@)
}

} // verus!
