use des::message::body::Body;
use des::message::extension::Extensions;
use des::message::util::AnyBox;
use des::message::{CustomSizeBody, MessageBody};
use des::module::meta::Metadata;
use std::collections::VecDeque;
use std::mem;

#[test]
fn body_maintains_type_identity() {
    assert!(Body::new("Hello world!").is::<&str>());
    assert!(!Body::new("Hello world!").is::<String>());

    assert!(Body::new("Hello world!".to_string()).is::<String>());
    assert!(!Body::new("Hello world!".to_string()).is::<&str>());

    assert!(Body::new(1u8).is::<u8>());
    assert!(!Body::new(1u8).is::<usize>());

    assert!(Body::new_non_debugable(true).is::<bool>());
    assert!(!Body::new_non_debugable(true).is::<u8>());

    assert!(Body::new_non_clonable('a').is::<char>());
    assert!(!Body::new_non_clonable('a').is::<u8>());
}

#[test]
fn body_allows_downcasting() {
    assert_eq!(
        Body::new("Hello world!").try_cast::<&str>().unwrap(),
        "Hello world!"
    );
    assert_eq!(Body::new(42u8).try_cast::<u8>().unwrap(), 42);
    assert_eq!(Body::new(true).try_cast::<bool>().unwrap(), true);

    assert_eq!(
        Body::new("Hello world!").try_content::<&str>().unwrap(),
        &"Hello world!"
    );
    assert_eq!(Body::new(42u8).try_content::<u8>().unwrap(), &42);
    assert_eq!(Body::new(true).try_content::<bool>().unwrap(), &true);

    assert_eq!(
        Body::new("Hello world!").try_content_mut::<&str>().unwrap(),
        &mut "Hello world!"
    );
    assert_eq!(Body::new(42u8).try_content_mut::<u8>().unwrap(), &mut 42);
    assert_eq!(
        Body::new(true).try_content_mut::<bool>().unwrap(),
        &mut true
    );
}

#[test]
fn body_lengths() {
    assert_eq!(Body::new("Hello world!").length(), 12);
    assert_eq!(Body::new(String::from("héllo")).length(), 6);
    assert_eq!(Body::new(7u32).length(), 4);
    assert_eq!(Body::new(vec![1u16, 2, 3]).length(), 6);
    assert_eq!(Body::new_with_len(5u8, 1500).length(), 1500);
    assert_eq!(Body::new_non_clonable(7u64).length(), 8);
    assert_eq!(Body::new_non_debugable((1u8, 2u32)).length(), mem::size_of::<(u8, u32)>());
}

#[test]
fn body_cast_to_other_type_gives_body_back() {
    let body = Body::new_with_len(7u8, 99);
    let back = body.try_cast::<u16>().unwrap_err();
    assert_eq!(back.length(), 99);
    assert_eq!(back.try_cast::<u8>().unwrap(), 7);
}

#[test]
fn message_body_lengths() {
    assert_eq!(().byte_len(), 0);
    assert_eq!(1u8.byte_len(), 1);
    assert_eq!(1i16.byte_len(), 2);
    assert_eq!('x'.byte_len(), 4);
    assert_eq!(true.byte_len(), 1);
    assert_eq!(1u128.byte_len(), 16);
    assert_eq!(7u32.bit_len(), 32);
    assert_eq!(String::from("abc").byte_len(), 3);
    assert_eq!(Some(5u64).byte_len(), 8);
    assert_eq!(None::<u64>.byte_len(), 0);
    assert_eq!(Ok::<u8, u32>(1).byte_len(), 1);
    assert_eq!(Err::<u8, u32>(1).byte_len(), 4);
    assert_eq!((1u8, 2u16, 3u32).byte_len(), 7);
    assert_eq!([1u8, 2, 3, 4].into_iter().collect::<VecDeque<_>>().byte_len(), 4);
    assert_eq!((&[1u8, 2, 3, 4][..3]).byte_len(), 3);
    assert_eq!([1u16, 2, 3].byte_len(), 6);
    assert_eq!(vec![String::from("ab"), String::from("cde")].byte_len(), 5);
    assert_eq!(Box::new(3u16).byte_len(), 2);
    assert_eq!(std::time::Duration::from_secs(123).byte_len(), 16);
}

#[test]
fn custom_size_body() {
    let mut body = CustomSizeBody::new(100, String::from("x"));
    assert_eq!(body.bit_len(), 100);
    assert_eq!(body.byte_len(), 12);
    body.inner_mut().push('y');
    assert_eq!(body.inner(), "xy");
    assert_eq!(body.bit_len(), 100);
    assert_eq!(body.into_inner(), "xy");
}

#[test]
fn size_of() {
    assert!(mem::size_of::<Extensions>() < 32);
}

#[test]
fn access_values() {
    let mut extensions = Extensions::default();
    extensions.set(10u32);
    extensions.set(20u64);

    assert!(extensions.has::<u32>());
    assert!(extensions.has::<u64>());
    assert!(!extensions.has::<String>());

    assert_eq!(extensions.get::<u32>().unwrap(), &10);
    assert_eq!(extensions.get::<u64>().unwrap(), &20);
}

#[test]
fn delete_value() {
    let mut extensions = Extensions::default();
    extensions.set(10u32);
    extensions.set(20u64);

    assert_eq!(extensions.get::<u32>().unwrap(), &10);

    let v = extensions.remove::<u32>();
    assert_eq!(v, Some(10));

    assert!(!extensions.has::<u32>());
    assert!(extensions.has::<u64>());
    assert!(!extensions.has::<String>());

    assert_eq!(extensions.get::<u32>(), None);
}

#[test]
fn mutate_value() {
    let mut extensions = Extensions::default();
    extensions.set(10u32);
    extensions.set(20u64);

    *extensions.get_mut::<u32>().unwrap() += 1;

    assert_eq!(extensions.get::<u32>().unwrap(), &11);
    assert_eq!(extensions.get::<u64>().unwrap(), &20);
}

#[test]
fn set_if_absent() {
    let mut extensions = Extensions::default();
    extensions.set(10u32);
    extensions.set(20u64);

    extensions.set_if_absent(30u32);

    assert_eq!(extensions.get::<u32>().unwrap(), &10);
    assert_eq!(extensions.get::<u64>().unwrap(), &20);

    extensions.set("hello world!");

    assert_eq!(extensions.get::<&'static str>().unwrap(), &"hello world!");
}

#[test]
fn extensions_count() {
    let mut extensions = Extensions::default();
    assert!(extensions.is_empty());
    extensions.set(1u8);
    extensions.set(2u8);
    assert_eq!(extensions.len(), 1);
    assert_eq!(extensions.get::<u8>(), Some(&2));
    extensions.set(3u16);
    assert_eq!(extensions.len(), 2);
    assert_eq!(extensions.remove::<u32>(), None);
    assert_eq!(extensions.len(), 2);
    extensions.clear();
    assert!(extensions.is_empty());
    assert!(!extensions.has::<u8>());
}

#[test]
fn ty_dup() {
    let boxed = AnyBox::new(String::from("Hello World!"));
    let mut duped = boxed
        .try_dup::<String>()
        .expect("failed to dup as 'String'");

    duped.try_cast_mut::<String>().unwrap().push('!');
    assert_eq!(boxed.try_cast_ref::<String>().unwrap(), "Hello World!");
    assert_eq!(duped.try_cast_ref::<String>().unwrap(), "Hello World!!");
    assert!(boxed.try_dup::<u8>().is_none());
}

#[test]
fn can_cast() {
    let boxed = AnyBox::new(1i64);
    assert!(boxed.can_cast::<i64>());
    assert!(!boxed.can_cast::<i32>());
    assert!(!boxed.can_cast::<String>());
    assert!(!boxed.can_cast::<&i64>());
}

#[test]
fn any_box_cast() {
    let boxed = AnyBox::new(5u8);
    let boxed = boxed.try_cast::<u16>().unwrap_err();
    assert_eq!(boxed.try_cast::<u8>().unwrap(), 5);
}

#[test]
fn store_insert_and_retrive() {
    let mut meta = Metadata::new();
    meta.set(String::from("Hello World!"));
    assert_eq!(meta.get::<String>(), Some(&String::from("Hello World!")));
    assert_eq!(meta.get::<u8>(), None);
}

#[test]
fn store_replaces_same_type() {
    let mut meta = Metadata::new();
    meta.set(1u8);
    meta.set(String::from("a"));
    meta.set(2u8);
    assert_eq!(meta.get::<u8>(), Some(&2));
    assert_eq!(meta.get::<String>(), Some(&String::from("a")));
}

#[test]
fn body_clones() {
    let body = Body::new_with_len(String::from("abc"), 99);
    let copy = body.try_clone().unwrap();
    assert_eq!(copy.length(), 99);
    assert_eq!(copy.try_content::<String>().unwrap(), "abc");
    assert!(Body::new(42u8).try_clone().is_some());
    assert!(Body::new_non_debugable(true).try_clone().is_some());
    assert!(Body::new_non_clonable('a').try_clone().is_none());

    let mut original = Body::new(vec![1u8]);
    original.try_content_mut::<Vec<u8>>().unwrap().push(2);
    let copy = original.try_clone().unwrap();
    original.try_content_mut::<Vec<u8>>().unwrap().push(3);
    assert_eq!(copy.try_content::<Vec<u8>>().unwrap(), &vec![1, 2]);
    assert_eq!(original.try_content::<Vec<u8>>().unwrap(), &vec![1, 2, 3]);
    let back = original.try_cast::<u8>().unwrap_err();
    assert!(back.try_clone().is_some());
}
