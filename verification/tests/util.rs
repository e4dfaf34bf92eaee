use dabus::async_util::{OneOf, OneOfResult};

#[test]
fn nothing_is_settled_while_both_are_pending() {
    let pair = OneOf::new("recv", "handler");
    match pair.poll::<u8, u8>(None, None) {
        Err(pair) => {
            assert_eq!(pair.fut0, "recv");
            assert_eq!(pair.fut1, "handler");
        }
        Ok(_) => panic!("nothing was ready"),
    }
}

#[test]
fn the_first_alone_gives_its_output_and_the_second_pending() {
    let pair = OneOf::new("recv", "handler");
    assert!(matches!(pair.poll::<u8, u8>(Some(1), None), Ok(OneOfResult::F0(1, "handler"))));
}

#[test]
fn the_second_alone_gives_its_output_and_the_first_pending() {
    let pair = OneOf::new("recv", "handler");
    assert!(matches!(pair.poll::<u8, u8>(None, Some(2)), Ok(OneOfResult::F1("recv", 2))));
}

#[test]
fn both_at_once_give_both_outputs() {
    let pair = OneOf::new("recv", "handler");
    assert!(matches!(pair.poll::<u8, u8>(Some(1), Some(2)), Ok(OneOfResult::All(1, 2))));
}
