use axum_typed_multipart::typed_multipart::{BaseMultipart, TypedMultipart};
use std::ops::Deref;

#[derive(Debug, Clone, Eq, PartialEq)]
struct Data {
    v0: String,
    v1: i32,
}

impl Data {
    fn modify(&mut self) {
        self.v0.push_str("modified");
        self.v1 += 1;
    }
}

#[test]
fn typed_multipart_test_deref() {
    let mut data = Data { v0: "DATA".into(), v1: 12 };
    let mut tm = TypedMultipart(data.clone());
    assert_eq!(tm.deref(), &data);

    data.modify();
    tm.modify();
    assert_eq!(tm.deref(), &data);
}

#[test]
fn base_multipart_test_deref() {
    let mut data = Data { v0: "DATA".into(), v1: 12 };
    let mut tm = BaseMultipart::<Data, ()>::new(data.clone());
    assert_eq!(tm.deref(), &data);

    data.modify();
    tm.modify();
    assert_eq!(tm.deref(), &data);
}

#[test]
fn base_multipart_holds_its_data() {
    let tm = BaseMultipart::<i32, ()>::new(7);
    assert_eq!(tm.data, 7);
    assert_eq!(*tm, 7);
}
