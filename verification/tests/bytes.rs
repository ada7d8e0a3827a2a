use memutils::bytes::ByteObject;

#[test]
fn byteobject_test() {
    struct UnCloneable {
        data: u8,
    }
    let original = UnCloneable { data: 10 };
    let raw = [original.data];
    let object = ByteObject::from_raw_parts(raw.len(), &raw);
    assert!(object.len() > 0);
    let new = UnCloneable { data: object.bytes()[0] };
    assert!(new.data == original.data)
}

#[test]
fn byteobject_lengths_agree() {
    let raw = [1u8, 2, 3];
    let object = ByteObject::from_raw_parts(3, &raw);
    assert_eq!(object.len(), 3);
    assert_eq!(object.length(), 3);
    assert_eq!(object.ilength(), 3);
    assert_eq!(object.ilen(), 3);
    assert!(!object.is_empty());
    assert!(object.is_not_empty());
    assert_eq!(object.bytes(), &[1u8, 2, 3]);
}

#[test]
fn byteobject_empty() {
    let raw: [u8; 0] = [];
    let object = ByteObject::from_raw_parts(0, &raw);
    assert!(object.is_empty());
    assert!(!object.is_not_empty());
    assert_eq!(object.ilen(), 0);
}

#[test]
fn no_heap_corrupt_test() {
    struct Object {
        data: u32,
    }

    let mut c = Object { data: 0 };
    c.data = 10;

    let raw = c.data.to_ne_bytes();
    let object = ByteObject::from_raw_parts(raw.len(), &raw);
    assert!(object.len() > 0);
    let copied = [object.bytes()[0], object.bytes()[1], object.bytes()[2], object.bytes()[3]];
    let c2 = Object { data: u32::from_ne_bytes(copied) };

    assert!(c2.data == 10)
}
