use aggregate_layout::memory::{
    move_by_mutable_reference, move_by_mutable_reference_inner, two_lifetime_annotations, Marker,
    StrSplit,
};

#[test]
fn take_leaves_default_behind() {
    let mut b = Box::new(Marker);
    let taken = move_by_mutable_reference_inner(&mut b);
    assert_eq!(*taken, Marker);
    assert_eq!(*b, Marker);
}

#[test]
fn move_out_of_local_and_box() {
    let (a, b) = move_by_mutable_reference();
    assert_eq!(a, Marker);
    assert_eq!(*b, Marker);
}

#[test]
fn document_outlives_delimiter() {
    let doc = String::from("hello world");
    let kept;
    {
        let delim = ' '.to_string();
        let split = StrSplit::new(&doc, &delim);
        assert_eq!(split.delimiter, " ");
        kept = split.document();
    }
    assert_eq!(kept, "hello world");
    assert_eq!(two_lifetime_annotations("abc"), "abc");
}
