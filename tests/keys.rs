use disc_graph::{derive_key, escape_key, namespaced_key, sanitize_key, KeyError};

#[test]
fn sanitize_replaces_slashes() {
    assert_eq!(sanitize_key("a/b/c"), "a_b_c");
    assert_eq!(sanitize_key("/"), "_");
}

#[test]
fn sanitize_keeps_other_text() {
    assert_eq!(sanitize_key("Prog-1_x.y"), "Prog-1_x.y");
    assert_eq!(sanitize_key(""), "");
}

#[test]
fn namespaced_key_is_program_then_hex() {
    assert_eq!(namespaced_key("P1", &[0x01, 0xab, 0x00, 0xff]), "P1:01ab00ff");
    assert_eq!(namespaced_key("a/b", &[0x10]), "a_sb:10");
    assert_eq!(namespaced_key("P", &[]), "P:");
}

#[test]
fn derive_key_hashes_the_bytes() {
    let k = derive_key("P1", b"abc").unwrap();
    assert_eq!(
        k,
        "P1:ba7816bf8f01cfea414140de5dae2223b00361a396177a9cb410ff61f20015ad"
    );
}

#[test]
fn derive_key_escapes_the_program() {
    let k = derive_key("a/b", b"abc").unwrap();
    assert_eq!(
        k,
        "a_sb:ba7816bf8f01cfea414140de5dae2223b00361a396177a9cb410ff61f20015ad"
    );
    assert!(!k.contains('/'));
    assert_ne!(k, derive_key("a_b", b"abc").unwrap());
}

#[test]
fn escape_key_is_injective_on_lookalikes() {
    assert_eq!(escape_key("a/b"), "a_sb");
    assert_eq!(escape_key("a_b"), "a__b");
    assert_eq!(escape_key("x-y:z"), "x_dy_cz");
    assert_eq!(escape_key("Prog1"), "Prog1");
    assert_eq!(escape_key(""), "");
    assert_ne!(escape_key("a/b"), escape_key("a_b"));
    assert_ne!(escape_key("a_s"), escape_key("a/"));
}

#[test]
fn derive_key_refuses_empty_input() {
    assert_eq!(derive_key("P1", &[]), Err(KeyError::InvalidInput));
}

#[test]
fn derive_key_is_deterministic_and_distinguishes_inputs() {
    let a1 = derive_key("P1", &[1, 2, 3]).unwrap();
    let a2 = derive_key("P1", &[1, 2, 3]).unwrap();
    let b = derive_key("P1", &[1, 2, 4]).unwrap();
    let other = derive_key("P2", &[1, 2, 3]).unwrap();
    assert_eq!(a1, a2);
    assert_ne!(a1, b);
    assert_ne!(a1, other);
    assert_eq!(a1.len(), 2 + 65);
    assert_eq!(derive_key("a-b", &[1]).unwrap().len(), 4 + 65);
}
