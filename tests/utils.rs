use polymesh_sto::utils::{bytes_eq, bytes_to_upper};

#[test]
fn upper_case_touches_only_ascii_letters() {
    assert_eq!(bytes_to_upper(b"abc-XYZ_09z{`"), b"ABC-XYZ_09Z{`".to_vec());
    assert_eq!(bytes_to_upper(&[0xe9, b'a']), vec![0xe9, b'A']);
    assert_eq!(bytes_to_upper(b""), Vec::<u8>::new());
}

#[test]
fn byte_equality() {
    assert!(bytes_eq(&b"ab".to_vec(), &b"ab".to_vec()));
    assert!(!bytes_eq(&b"ab".to_vec(), &b"aB".to_vec()));
    assert!(!bytes_eq(&b"ab".to_vec(), &b"abc".to_vec()));
    assert!(bytes_eq(&Vec::new(), &Vec::new()));
}
