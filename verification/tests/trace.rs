use dabus::bus::error::{BaseFireEventError, CallEvent, CallTrace, FireEventError, Resolution};
use dabus::dyn_var::DynVar;
use dabus::event::EventDef;

struct PingTag;

fn node(name: &'static str) -> CallEvent {
    CallEvent {
        handler_name: name,
        handler_args_t: "()",
        handler_args: None,
        inner: vec![],
        resolution: None,
        return_t: "()",
        return_v: None,
    }
}

fn resolved(name: &'static str, resolution: Resolution) -> CallEvent {
    let mut n = node(name);
    n.resolve(resolution);
    n
}

fn no_handler() -> Resolution {
    Resolution::BusError(FireEventError { err: BaseFireEventError::NoHandler })
}

#[test]
fn display_of_a_leaf() {
    let n = resolved("HELLO", Resolution::Success);
    assert_eq!(n.display(), "call: handler HELLO (&mut self, args: ()) -> () ::: Success");
}

#[test]
fn display_of_an_unhandled_leaf() {
    let mut n = node("WRITE");
    n.handler_args_t = "alloc::string::String";
    n.return_t = "bool";
    n.resolve(no_handler());
    assert_eq!(
        n.display(),
        "call: handler WRITE (&mut self, args: alloc::string::String) -> bool ::: BusError(FireEventError { err: NoHandler })"
    );
}

#[test]
fn display_indents_nested_calls() {
    let mut root = node("HELLO");
    root.push_inner(resolved("PRINT", Resolution::Success));
    root.push_inner(resolved("FLUSH", Resolution::Success));
    root.resolve(Resolution::Success);
    let expected = "call: handler HELLO (&mut self, args: ()) -> ()\n\
                    \x20 call: handler PRINT (&mut self, args: ()) -> () ::: Success\n\
                    \x20 call: handler FLUSH (&mut self, args: ()) -> () ::: Success\n\
                    ret: Success";
    assert_eq!(root.display(), expected);
}

#[test]
fn display_indents_every_line_of_a_deep_call() {
    let mut middle = node("FLUSH");
    middle.push_inner(resolved("WRITE", no_handler()));
    middle.resolve(Resolution::NestedCallError);
    let mut root = node("HELLO");
    root.push_inner(middle);
    root.resolve(Resolution::NestedCallError);
    let expected = "call: handler HELLO (&mut self, args: ()) -> ()\n\
                    \x20 call: handler FLUSH (&mut self, args: ()) -> ()\n\
                    \x20   call: handler WRITE (&mut self, args: ()) -> () ::: BusError(FireEventError { err: NoHandler })\n\
                    \x20 ret: NestedCallError\n\
                    ret: NestedCallError";
    assert_eq!(root.display(), expected);
    let trace = CallTrace { root: Some(root) };
    assert_eq!(trace.display(), expected);
}

#[test]
fn source_of_a_root_without_handler_is_the_root() {
    let t = CallTrace { root: Some(resolved("HELLO", no_handler())) };
    assert_eq!(t.source().unwrap().handler_name, "HELLO");
}

#[test]
fn source_skips_the_nodes_that_only_pass_a_failure_on() {
    let mut middle = node("FLUSH");
    middle.push_inner(resolved("WRITE", no_handler()));
    middle.resolve(Resolution::NestedCallError);
    let mut root = node("HELLO");
    root.push_inner(resolved("PRINT", Resolution::Success));
    root.push_inner(middle);
    root.resolve(Resolution::NestedCallError);
    let t = CallTrace { root: Some(root) };
    let source = t.source().unwrap();
    assert_eq!(source.handler_name, "WRITE");
    assert!(matches!(source.resolution, Some(Resolution::BusError(_))));
}

#[test]
fn source_follows_the_last_child() {
    let mut root = node("HELLO");
    root.push_inner(resolved("FIRST", no_handler()));
    root.push_inner(resolved("LAST", Resolution::Success));
    root.resolve(Resolution::NestedCallError);
    let t = CallTrace { root: Some(root) };
    assert!(t.source().is_none());
}

#[test]
fn source_of_a_success_is_nothing() {
    let t = CallTrace { root: Some(resolved("HELLO", Resolution::Success)) };
    assert!(t.source().is_none());
}

#[test]
fn source_of_an_unresolved_or_empty_trace_is_nothing() {
    assert!(CallTrace { root: Some(node("HELLO")) }.source().is_none());
    assert!(CallTrace { root: None }.source().is_none());
    let t = CallTrace { root: Some(resolved("HELLO", Resolution::NestedCallError)) };
    assert!(t.source().is_none());
}

#[test]
fn take_root_leaves_the_trace_empty() {
    let mut t = CallTrace { root: Some(node("HELLO")) };
    let root = t.take_root().unwrap();
    assert_eq!(root.handler_name, "HELLO");
    assert!(t.root.is_none());
    assert!(t.take_root().is_none());
    t.set_root(node("AGAIN"));
    assert_eq!(t.root.unwrap().handler_name, "AGAIN");
}

#[test]
fn resolve_and_push_inner_touch_one_field_each() {
    let mut n = node("HELLO");
    n.push_inner(node("A"));
    n.push_inner(node("B"));
    assert_eq!(n.inner.len(), 2);
    assert_eq!(n.inner[0].handler_name, "A");
    assert_eq!(n.inner[1].handler_name, "B");
    assert!(n.resolution.is_none());
    n.resolve(Resolution::NestedCallError);
    assert!(matches!(n.resolution, Some(Resolution::NestedCallError)));
    assert_eq!(n.inner.len(), 2);
    assert!(n.return_v.is_none());
}

#[test]
fn from_event_def_takes_names_and_the_text_of_the_arguments() {
    let def: EventDef<PingTag, String, u32> = EventDef::new("PING", "String", "u32");
    let args = DynVar::new_debug(String::from("hi"));
    let n = CallEvent::from_event_def(&def, &args);
    assert_eq!(n.handler_name, "PING");
    assert_eq!(n.handler_args_t, "String");
    assert_eq!(n.return_t, "u32");
    assert_eq!(n.handler_args.as_deref(), Some("\"hi\""));
    assert!(n.inner.is_empty());
    assert!(n.resolution.is_none());
    assert!(n.return_v.is_none());
}

#[test]
fn set_return_keeps_the_text_of_the_value() {
    let mut n = node("PING");
    n.set_return(&DynVar::new_debug(7u32));
    assert_eq!(n.return_v.as_deref(), Some("7"));
    n.set_return(&DynVar::new(7u32));
    assert_eq!(n.return_v.as_deref(), Some("{dyn DynDebug}"));
}

#[test]
fn clone_copies_the_whole_tree() {
    let mut root = node("HELLO");
    root.push_inner(resolved("PRINT", Resolution::Success));
    root.resolve(Resolution::Success);
    let t = CallTrace { root: Some(root) };
    let copy = t.clone();
    assert_eq!(copy.display(), t.display());
}

#[test]
fn a_tree_is_fully_resolved_when_every_node_is() {
    let mut root = node("HELLO");
    assert!(!root.is_fully_resolved());
    root.push_inner(resolved("PRINT", Resolution::Success));
    root.push_inner(node("FLUSH"));
    root.resolve(Resolution::Success);
    assert!(!root.is_fully_resolved());
    root.inner[1].resolve(no_handler());
    assert!(root.is_fully_resolved());
    let mut deep = node("OUTER");
    let mut middle = resolved("MIDDLE", Resolution::Success);
    middle.push_inner(node("INNER"));
    deep.push_inner(middle);
    deep.resolve(Resolution::Success);
    assert!(!deep.is_fully_resolved());
}
