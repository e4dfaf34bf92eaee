//! The trace of a call: a tree of records, one for each call, which says
//! which handler ran, with what, what it called in turn and how it ended.

use crate::dyn_var::DynVar;
use crate::event::EventDef;
use vstd::prelude::*;

verus! {

/// Why an event could not be run.
#[derive(Debug)]
pub enum BaseFireEventError {
    /// No stop in the pool answers the event.
    NoHandler,
}

/// The failure of the bus to run an event.
#[derive(Debug)]
pub struct FireEventError {
    pub err: BaseFireEventError,
}

/// How a call ended.
#[derive(Debug)]
pub enum Resolution {
    /// The handler returned.
    Success,
    /// The bus could not run the event.
    BusError(FireEventError),
    /// The handler gave up over the failure of a call that it made.
    NestedCallError,
}

/// The record of one call: the event, the text of its arguments, the calls
/// that its handler made, in their order, how it ended, and the text of what
/// it returned.
#[derive(Debug)]
pub struct CallEvent {
    pub handler_name: &'static str,
    pub handler_args_t: &'static str,
    pub handler_args: Option<String>,
    pub inner: Vec<CallEvent>,
    pub resolution: Option<Resolution>,
    pub return_t: &'static str,
    pub return_v: Option<String>,
}

/// A call record as a value of the logic: texts as sequences of characters,
/// nested calls as a sequence of nodes.
pub ghost struct CallNode {
    pub handler_name: Seq<char>,
    pub handler_args_t: Seq<char>,
    pub handler_args: Option<Seq<char>>,
    pub inner: Seq<CallNode>,
    pub resolution: Option<Resolution>,
    pub return_t: Seq<char>,
    pub return_v: Option<Seq<char>>,
}

/// The characters of a text that may be absent.
pub open spec fn text_of(s: Option<String>) -> Option<Seq<char>> {
    match s {
        None => None,
        Some(t) => Some(t@),
    }
}

/// The node that a call record stands for.
pub open spec fn node_of(e: CallEvent) -> CallNode
    decreases e,
{
    CallNode {
        handler_name: e.handler_name@,
        handler_args_t: e.handler_args_t@,
        handler_args: text_of(e.handler_args),
        inner: Seq::new(
            e.inner@.len(),
            |i: int|
                if 0 <= i < e.inner@.len() {
                    node_of(e.inner[i])
                } else {
                    arbitrary()
                },
        ),
        resolution: e.resolution,
        return_t: e.return_t@,
        return_v: text_of(e.return_v),
    }
}

impl View for CallEvent {
    type V = CallNode;

    open spec fn view(&self) -> CallNode {
        node_of(*self)
    }
}

/// The children of the node of a record are the nodes of the records below it.
pub proof fn lemma_children(e: CallEvent)
    ensures
        e@.inner.len() == e.inner@.len(),
        forall|j: int| 0 <= j < e.inner@.len() ==> #[trigger] e@.inner[j] == e.inner@[j]@,
{
}

impl Clone for BaseFireEventError {
    fn clone(&self) -> (r: Self)
        ensures
            r == *self,
    {
        BaseFireEventError::NoHandler
    }
}

impl Clone for FireEventError {
    fn clone(&self) -> (r: Self)
        ensures
            r == *self,
    {
        FireEventError { err: self.err.clone() }
    }
}

impl Clone for Resolution {
    fn clone(&self) -> (r: Self)
        ensures
            r == *self,
    {
        match self {
            Resolution::Success => Resolution::Success,
            Resolution::BusError(e) => Resolution::BusError(e.clone()),
            Resolution::NestedCallError => Resolution::NestedCallError,
        }
    }
}

/// A copy of a text that may be absent.
fn clone_text(s: &Option<String>) -> (r: Option<String>)
    ensures
        r == *s,
{
    match s {
        None => None,
        Some(t) => Some(t.clone()),
    }
}

impl Clone for CallEvent {
    fn clone(&self) -> (r: Self)
        ensures
            r@ == self@,
        decreases *self,
    {
        let mut inner: Vec<CallEvent> = Vec::new();
        let n = self.inner.len();
        let mut i: usize = 0;
        while i < n
            invariant
                n == self.inner.len(),
                i <= n,
                inner.len() == i,
                forall|j: int| 0 <= j < i ==> (#[trigger] inner@[j])@ == self.inner@[j]@,
            decreases n - i,
        {
            let c = self.inner[i].clone();
            inner.push(c);
            i = i + 1;
        }
        let resolution = match &self.resolution {
            None => None,
            Some(x) => Some(x.clone()),
        };
        let r = CallEvent {
            handler_name: self.handler_name,
            handler_args_t: self.handler_args_t,
            handler_args: clone_text(&self.handler_args),
            inner,
            resolution,
            return_t: self.return_t,
            return_v: clone_text(&self.return_v),
        };
        proof {
            lemma_children(r);
            lemma_children(*self);
            assert(r@.inner =~= self@.inner);
        }
        r
    }
}


/// The trace of a top-level call: the record of the call at its root, or
/// nothing while the root is taken out.
#[derive(Debug)]
pub struct CallTrace {
    pub root: Option<CallEvent>,
}

impl View for CallTrace {
    type V = Option<CallNode>;

    open spec fn view(&self) -> Option<CallNode> {
        match self.root {
            None => None,
            Some(e) => Some(e@),
        }
    }
}

impl Clone for CallTrace {
    fn clone(&self) -> (r: Self)
        ensures
            r@ == self@,
    {
        match &self.root {
            None => CallTrace { root: None },
            Some(e) => CallTrace { root: Some(e.clone()) },
        }
    }
}

/// The node that a failure started from: the node itself where it carries a bus
/// error, the origin of its last child where it only passes a nested failure on,
/// and nothing for a node that succeeded or was never resolved.
pub open spec fn source_of(n: CallNode) -> Option<CallNode>
    decreases n,
{
    match n.resolution {
        Some(Resolution::BusError(_)) => Some(n),
        Some(Resolution::NestedCallError) => if n.inner.len() > 0 {
            source_of(n.inner[n.inner.len() - 1])
        } else {
            None
        },
        _ => None,
    }
}

impl CallEvent {
    /// Notes how the call ended. A call ends once.
    pub fn resolve(&mut self, resolution: Resolution)
        requires
            old(self).resolution is None,
        ensures
            final(self)@ == (CallNode { resolution: Some(resolution), ..old(self)@ }),
    {
        self.resolution = Some(resolution);
        proof {
            lemma_children(*old(self));
            lemma_children(*self);
            assert(self@.inner =~= old(self)@.inner);
        }
    }

    /// Records a call that the handler of this call made.
    pub fn push_inner(&mut self, event: CallEvent)
        ensures
            final(self)@ == (CallNode { inner: old(self)@.inner.push(event@), ..old(self)@ }),
    {
        self.inner.push(event);
        proof {
            lemma_children(*old(self));
            lemma_children(*self);
            assert(self@.inner =~= old(self)@.inner.push(event@));
        }
    }

    /// The node of a call of the event `def` with the arguments `args`, before
    /// anything is known of how the call ends.
    pub fn from_event_def<Tag, At, Rt>(def: &EventDef<Tag, At, Rt>, args: &DynVar) -> (r: Self)
        ensures
            r@ == (CallNode {
                handler_name: def.name()@,
                handler_args_t: def.args_type()@,
                handler_args: Some(args.snapshot_text()),
                inner: Seq::empty(),
                resolution: None,
                return_t: def.return_type()@,
                return_v: None,
            }),
    {
        let r = CallEvent {
            handler_name: def.name(),
            handler_args_t: def.args_type(),
            handler_args: Some(args.debug_snapshot()),
            inner: Vec::new(),
            resolution: None,
            return_t: def.return_type(),
            return_v: None,
        };
        proof {
            lemma_children(r);
            assert(r@.inner =~= Seq::empty());
        }
        r
    }

    /// Notes what the call returned.
    pub fn set_return(&mut self, return_v: &DynVar)
        ensures
            final(self)@ == (CallNode { return_v: Some(return_v.snapshot_text()), ..old(self)@ }),
    {
        self.return_v = Some(return_v.debug_snapshot());
        proof {
            lemma_children(*old(self));
            lemma_children(*self);
            assert(self@.inner =~= old(self)@.inner);
        }
    }

    /// The call below or at this one that a failure started from.
    fn origin(&self) -> (r: Option<CallEvent>)
        ensures
            match r {
                None => source_of(self@) is None,
                Some(e) => source_of(self@) == Some(e@),
            },
        decreases *self,
    {
        proof {
            lemma_children(*self);
        }
        match &self.resolution {
            Some(Resolution::BusError(_)) => Some(self.clone()),
            Some(Resolution::NestedCallError) => {
                let n = self.inner.len();
                if n > 0 {
                    self.inner[n - 1].origin()
                } else {
                    None
                }
            },
            _ => None,
        }
    }
}

impl CallTrace {
    /// Takes the root out of the trace.
    pub fn take_root(&mut self) -> (r: Option<CallEvent>)
        ensures
            r == old(self).root,
            final(self).root is None,
    {
        self.root.take()
    }

    /// Puts a root into the trace.
    pub fn set_root(&mut self, root: CallEvent)
        ensures
            final(self).root == Some(root),
    {
        self.root = Some(root);
    }

    /// The call that a failure started from: the first one that carries a
    /// failure of the bus, found from the root through the calls that only
    /// passed a failure on.
    pub fn source(&self) -> (r: Option<CallEvent>)
        ensures
            match r {
                None => self@ is None || source_of(self@->0) is None,
                Some(e) => self@ is Some && source_of(self@->0) == Some(e@),
            },
    {
        match &self.root {
            None => None,
            Some(root) => root.origin(),
        }
    }
}


/// What the text of a line break becomes inside an indented block: the break,
/// followed by the indentation of the line that it opens.
pub open spec fn indent_piece(c: char) -> Seq<char> {
    if c == '\n' {
        seq!['\n', ' ', ' ']
    } else {
        seq![c]
    }
}

/// The text `s` with two spaces before its first line and after each of its line breaks.
pub open spec fn indent_body(s: Seq<char>) -> Seq<char>
    decreases s.len(),
{
    if s.len() == 0 {
        seq![' ', ' ']
    } else {
        indent_body(s.drop_last()) + indent_piece(s.last())
    }
}

/// Every line of `s` moved two spaces to the right and closed by a line break.
pub open spec fn indent_text(s: Seq<char>) -> Seq<char> {
    indent_body(s) + seq!['\n']
}

/// Appends one character to a string, through `String::push`.
#[verifier::external_body]
fn push_char(s: &mut String, c: char)
    ensures
        final(s)@ == old(s)@.push(c),
{
    s.push(c)
}

/// The text moved two spaces to the right, line by line.
fn indent(text: &String) -> (r: String)
    ensures
        r@ == indent_text(text@),
{
    let mut out = String::new();
    push_char(&mut out, ' ');
    push_char(&mut out, ' ');
    assert(out@ =~= indent_body(text@.subrange(0, 0)));
    for c in it: text.as_str().chars()
        invariant
            it.seq() == text@,
            out@ == indent_body(text@.subrange(0, it.index() as int)),
    {
        let ghost k = it.index() as int;
        assert(text@.subrange(0, k + 1).drop_last() =~= text@.subrange(0, k));
        assert(text@.subrange(0, k + 1).last() == c);
        if c == '\n' {
            push_char(&mut out, '\n');
            push_char(&mut out, ' ');
            push_char(&mut out, ' ');
            assert(out@ =~= indent_body(text@.subrange(0, k)) + indent_piece(c));
        } else {
            push_char(&mut out, c);
            assert(out@ =~= indent_body(text@.subrange(0, k)) + indent_piece(c));
        }
    }
    assert(text@.subrange(0, text@.len() as int) =~= text@);
    push_char(&mut out, '\n');
    out
}


/// How a resolution reads in a rendered trace.
pub open spec fn resolution_text(r: Resolution) -> Seq<char> {
    match r {
        Resolution::Success => "Success"@,
        Resolution::BusError(_) => "BusError(FireEventError { err: NoHandler })"@,
        Resolution::NestedCallError => "NestedCallError"@,
    }
}

/// The first line of a rendered call: the handler and its signature.
pub open spec fn header_text(n: CallNode) -> Seq<char> {
    "call: handler "@ + n.handler_name + " (&mut self, args: "@ + n.handler_args_t + ") -> "@
        + n.return_t
}

/// A node is fully resolved when it and every node below it has its resolution.
pub open spec fn fully_resolved(n: CallNode) -> bool
    decreases n,
{
    &&& n.resolution is Some
    &&& forall|i: int| 0 <= i < n.inner.len() ==> fully_resolved(#[trigger] n.inner[i])
}

/// The rendered and indented text of the first `k` children of `n`.
pub open spec fn children_text(n: CallNode, k: nat) -> Seq<char>
    decreases n, k,
{
    if k == 0 || k > n.inner.len() {
        Seq::empty()
    } else {
        children_text(n, (k - 1) as nat) + indent_text(display_text(n.inner[k - 1]))
    }
}

/// The rendered text of a call tree. A call without nested calls is one line,
/// `<header> ::: <resolution>`. One with nested calls is its header, then each
/// nested call indented by two spaces, then `ret: <resolution>`.
pub open spec fn display_text(n: CallNode) -> Seq<char>
    decreases n, n.inner.len() + 1,
{
    if n.inner.len() == 0 {
        header_text(n) + " ::: "@ + resolution_text(n.resolution->0)
    } else {
        header_text(n) + seq!['\n'] + children_text(n, n.inner.len()) + "ret: "@
            + resolution_text(n.resolution->0)
    }
}

/// How a resolution reads in a rendered trace.
fn resolution_name(r: &Resolution) -> (t: &'static str)
    ensures
        t@ == resolution_text(*r),
{
    match r {
        Resolution::Success => "Success",
        Resolution::BusError(_) => "BusError(FireEventError { err: NoHandler })",
        Resolution::NestedCallError => "NestedCallError",
    }
}

impl CallEvent {
    /// Whether this call and every call below it has its resolution.
    pub fn is_fully_resolved(&self) -> (r: bool)
        ensures
            r == fully_resolved(self@),
        decreases *self,
    {
        proof {
            lemma_children(*self);
        }
        if self.resolution.is_none() {
            return false;
        }
        let n = self.inner.len();
        let mut i: usize = 0;
        while i < n
            invariant
                n == self.inner.len(),
                i <= n,
                self@.inner.len() == n,
                forall|j: int| 0 <= j < n ==> #[trigger] self@.inner[j] == self.inner@[j]@,
                forall|j: int| 0 <= j < i ==> fully_resolved(#[trigger] self@.inner[j]),
            decreases n - i,
        {
            if !self.inner[i].is_fully_resolved() {
                assert(!fully_resolved(self@.inner[i as int]));
                return false;
            }
            i = i + 1;
        }
        true
    }

    /// The call tree as text, one call to a line, nested calls indented.
    pub fn display(&self) -> (r: String)
        requires
            fully_resolved(self@),
        ensures
            r@ == display_text(self@),
        decreases *self,
    {
        proof {
            lemma_children(*self);
        }
        let mut out = String::from_str("call: handler ");
        out.append(self.handler_name);
        out.append(" (&mut self, args: ");
        out.append(self.handler_args_t);
        out.append(") -> ");
        out.append(self.return_t);
        assert(out@ =~= header_text(self@));
        let res = match &self.resolution {
            Some(r) => resolution_name(r),
            None => "",
        };
        let n = self.inner.len();
        if n == 0 {
            out.append(" ::: ");
            out.append(res);
            out
        } else {
            push_char(&mut out, '\n');
            let mut i: usize = 0;
            while i < n
                invariant
                    n == self.inner.len(),
                    i <= n,
                    fully_resolved(self@),
                    self@.inner.len() == n,
                    forall|j: int| 0 <= j < n ==> #[trigger] self@.inner[j] == self.inner@[j]@,
                    out@ == header_text(self@) + seq!['\n'] + children_text(self@, i as nat),
                decreases n - i,
            {
                assert(fully_resolved(self@.inner[i as int]));
                let child = self.inner[i].display();
                let block = indent(&child);
                out.append(block.as_str());
                i = i + 1;
            }
            out.append("ret: ");
            out.append(res);
            out
        }
    }
}

impl CallTrace {
    /// The call tree of the trace as text.
    pub fn display(&self) -> (r: String)
        requires
            self@ is Some,
            fully_resolved(self@->0),
        ensures
            r@ == display_text(self@->0),
    {
        match &self.root {
            Some(root) => root.display(),
            None => String::new(),
        }
    }
}

} // verus!
