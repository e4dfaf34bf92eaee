//! The declaration of events, and the table in which a stop lists the events
//! that it answers.

use crate::dyn_var::type_of;
use std::any::TypeId;
use std::marker::PhantomData;
use vstd::prelude::*;

verus! {

/// The declaration of one event: its name, the names of its argument and
/// return types, and the identity under which handlers are found for it.
/// `Tag` is a type that only this declaration uses, which is what sets the
/// event apart from every other, also from one with the same argument and
/// return types; `At` and `Rt` are what a handler of the event takes and
/// gives. The identity cannot be chosen: it comes with the tag.
pub struct EventDef<Tag, At, Rt> {
    name: &'static str,
    args_t: &'static str,
    return_t: &'static str,
    id: TypeId,
    types: PhantomData<(Tag, At, Rt)>,
}

impl<Tag, At, Rt> EventDef<Tag, At, Rt> {
    /// The name of the event.
    pub closed spec fn spec_name(&self) -> &'static str {
        self.name
    }

    /// The name of the type of the arguments.
    pub closed spec fn spec_args_type(&self) -> &'static str {
        self.args_t
    }

    /// The name of the type of what is returned.
    pub closed spec fn spec_return_type(&self) -> &'static str {
        self.return_t
    }

    /// The identity under which handlers are found for the event.
    pub closed spec fn spec_identity(&self) -> TypeId {
        self.id
    }

    /// Declares an event under the tag `Tag`.
    pub fn new(name: &'static str, args_t: &'static str, return_t: &'static str) -> (r: Self) where
        Tag: 'static,

        ensures
            r.name() == name,
            r.args_type() == args_t,
            r.return_type() == return_t,
    {
        EventDef { name, args_t, return_t, id: type_of::<Tag>(), types: PhantomData }
    }

    /// The name of the event.
    #[verifier::when_used_as_spec(spec_name)]
    pub fn name(&self) -> (r: &'static str)
        ensures
            r == self.name(),
    {
        self.name
    }

    /// The name of the type of the arguments.
    #[verifier::when_used_as_spec(spec_args_type)]
    pub fn args_type(&self) -> (r: &'static str)
        ensures
            r == self.args_type(),
    {
        self.args_t
    }

    /// The name of the type of what is returned.
    #[verifier::when_used_as_spec(spec_return_type)]
    pub fn return_type(&self) -> (r: &'static str)
        ensures
            r == self.return_type(),
    {
        self.return_t
    }

    /// The identity under which handlers are found for the event.
    #[verifier::when_used_as_spec(spec_identity)]
    pub fn identity(&self) -> (r: TypeId)
        ensures
            r == self.identity(),
    {
        self.id
    }
}

/// One line of a stop's table: the event it answers, the handler that runs
/// for it, and a text that describes the pair.
pub struct HandlerEntry<H> {
    pub event: TypeId,
    pub handler: H,
    pub label: String,
}

/// The text that describes a handler of the event with these names.
pub open spec fn label_text(name: Seq<char>, args_t: Seq<char>, return_t: Seq<char>) -> Seq<char> {
    "name: "@ + name + ", args: "@ + args_t + ", return: "@ + return_t
}

/// How many entries of a table answer the event `id`.
pub open spec fn count_matches<H>(entries: Seq<HandlerEntry<H>>, id: TypeId) -> nat
    decreases entries.len(),
{
    if entries.len() == 0 {
        0
    } else {
        count_matches(entries.drop_last(), id) + if entries.last().event == id {
            1nat
        } else {
            0nat
        }
    }
}

/// Whether `after` is `before` with one entry attached at its end: the
/// handler `func` for the event `event` with these names.
pub open spec fn attached<H>(
    before: Seq<HandlerEntry<H>>,
    after: Seq<HandlerEntry<H>>,
    event: TypeId,
    func: H,
    name: Seq<char>,
    args_t: Seq<char>,
    return_t: Seq<char>,
) -> bool {
    &&& after.len() == before.len() + 1
    &&& after.drop_last() == before
    &&& after.last().event == event
    &&& after.last().handler == func
    &&& after.last().label@ == label_text(name, args_t, return_t)
}

/// The table of a stop of type `S`, as it is built up entry by entry.
pub struct EventRegister<S, H> {
    pub handlers: Vec<HandlerEntry<H>>,
    pub stop_t: PhantomData<S>,
}

impl<S, H> EventRegister<S, H> {
    /// A table without entries.
    pub fn new() -> (r: Self)
        ensures
            r.handlers@.len() == 0,
    {
        EventRegister { handlers: Vec::new(), stop_t: PhantomData }
    }

    /// Attaches the handler `func` for the event `def`.
    pub fn handler<Tag, At, Rt>(self, def: &EventDef<Tag, At, Rt>, func: H) -> (r: Self)
        ensures
            attached(
                self.handlers@,
                r.handlers@,
                def.identity(),
                func,
                def.name()@,
                def.args_type()@,
                def.return_type()@,
            ),
    {
        let mut label = String::from_str("name: ");
        label.append(def.name());
        label.append(", args: ");
        label.append(def.args_type());
        label.append(", return: ");
        label.append(def.return_type());
        let mut this = self;
        this.handlers.push(HandlerEntry { event: def.identity(), handler: func, label });
        assert(this.handlers@.drop_last() =~= self.handlers@);
        this
    }
}

} // verus!
