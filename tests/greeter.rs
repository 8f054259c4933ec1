use cng_proxy::greeter::Greeter;

#[test]
fn greets_by_name() {
    let g = Greeter::new();
    assert_eq!(g.reply_message(Some("world1")), "hello world1");
}

#[test]
fn greets_without_a_name() {
    let g = Greeter::new();
    assert_eq!(g.reply_message(None), "hello ");
}

#[test]
fn streams_the_requested_number_of_greetings() {
    let g = Greeter::new();
    let all = g.reply_messages(Some("world2"), 3);
    assert_eq!(all, vec!["hello world2".to_string(); 3]);
    assert!(g.reply_messages(Some("x"), 0).is_empty());
}
