use docquery::keys::{document_key, image_key};

fn is_v4(s: &str) -> bool {
    let b: Vec<char> = s.chars().collect();
    b.len() == 36
        && b.iter().enumerate().all(|(i, c)| {
            if [8, 13, 18, 23].contains(&i) {
                *c == '-'
            } else {
                c.is_ascii_digit() || ('a'..='f').contains(c)
            }
        })
        && b[14] == '4'
        && "89ab".contains(b[19])
}

#[test]
fn document_keys_are_random_v4_uuids() {
    let a = document_key();
    let b = document_key();
    assert!(is_v4(&a), "{a}");
    assert!(is_v4(&b), "{b}");
    assert_ne!(a, b);
    assert!(uuid::Uuid::parse_str(&a).is_ok());
}

#[test]
fn image_keys_end_in_jpg() {
    let k = image_key();
    assert_eq!(k.len(), 40);
    assert!(k.ends_with(".jpg"));
    assert!(is_v4(&k[..36]));
}
