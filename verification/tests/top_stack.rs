use lua_codegen::top_stack::TopStack;

#[test]
fn new_stack_has_one_entry() {
    let s = TopStack::new(7);
    assert_eq!(s.len(), 1);
    assert_eq!(*s.get(0), 7);
}

#[test]
fn push_and_pop_are_last_in_first_out() {
    let mut s = TopStack::new(1);
    s.push(2);
    s.push(3);
    assert_eq!(s.len(), 3);
    assert_eq!(*s.get(0), 1);
    assert_eq!(*s.get(1), 2);
    assert_eq!(*s.get(2), 3);
    assert_eq!(s.pop(), 3);
    assert_eq!(s.len(), 2);
    assert_eq!(*s.get(1), 2);
    assert_eq!(s.pop(), 2);
    assert_eq!(s.len(), 1);
    assert_eq!(*s.get(0), 1);
}

#[test]
fn get_mut_changes_one_entry() {
    let mut s = TopStack::new(10);
    s.push(20);
    s.push(30);
    *s.get_mut(1) = 21;
    *s.get_mut(2) += 1;
    *s.get_mut(0) = 9;
    assert_eq!(*s.get(0), 9);
    assert_eq!(*s.get(1), 21);
    assert_eq!(*s.get(2), 31);
    assert_eq!(s.len(), 3);
}

#[test]
fn top_is_the_last_entry() {
    let mut s = TopStack::new("a");
    s.push("b");
    assert_eq!(s.top, "b");
    assert_eq!(s.lower, vec!["a"]);
}
