use rsa::traits::PublicKeyParts;
use signed_xml::crypto::KeyPair;
use signed_xml::error::XmlSignError;
use signed_xml::xml::{SignedXmlDocument, XmlDocument};

#[test]
fn test_read_nodes() {
    let xml = r#"<root><child id="1">Text</child></root>"#;
    let doc = XmlDocument::new(xml.to_string());
    let nodes = doc.read_nodes().unwrap();
    assert!(nodes.len() >= 2);
}

#[test]
fn test_sign_and_verify() {
    let xml = r#"<root><data>test</data></root>"#;
    let doc = XmlDocument::new(xml.to_string());
    let keypair = KeyPair::generate(2048).unwrap();
    let signed = doc.sign(&keypair.private_key).unwrap();
    let is_valid = signed.verify(&keypair.public_key).unwrap();
    assert!(is_valid);
}

#[test]
fn test_element_counting() {
    let xml = r#"<root><child id="1">Text</child></root>"#;
    let doc = XmlDocument::new(xml.to_string());
    let nodes = doc.read_nodes().unwrap();
    assert!(nodes.len() >= 2);
    assert_eq!(nodes[0].name, "root");
    assert_eq!(nodes[1].name, "child");
    assert_eq!(nodes[1].text_content.as_deref(), Some("Text"));
    assert_eq!(nodes[1].get_attribute("id").map(|v| v.as_str()), Some("1"));
}

#[test]
fn test_round_trip() {
    let xml = r#"<Document><Header id="h1"><Title>Sample</Title></Header><Body>Some text</Body></Document>"#;
    let doc = XmlDocument::new(xml.to_string());
    let keypair = KeyPair::generate(1024).unwrap();
    let signed = doc.sign(&keypair.private_key).unwrap();
    assert!(signed.verify(&keypair.public_key).unwrap());
}

#[test]
fn test_tamper_text_content() {
    let xml = r#"<root><data>payload</data></root>"#;
    let doc = XmlDocument::new(xml.to_string());
    let keypair = KeyPair::generate(1024).unwrap();
    let signed = doc.sign(&keypair.private_key).unwrap();
    let tampered = SignedXmlDocument {
        content: signed.content.replace("payload", "paYload"),
        signature: signed.signature.clone(),
    };
    assert!(!tampered.verify(&keypair.public_key).unwrap());
}

#[test]
fn test_tamper_attribute_value() {
    let xml = r#"<root><item kind="gold"/></root>"#;
    let doc = XmlDocument::new(xml.to_string());
    let keypair = KeyPair::generate(1024).unwrap();
    let signed = doc.sign(&keypair.private_key).unwrap();
    let tampered = SignedXmlDocument {
        content: signed.content.replace("gold", "lead"),
        signature: signed.signature.clone(),
    };
    assert!(!tampered.verify(&keypair.public_key).unwrap());
}

#[test]
fn test_tamper_tag_name() {
    let xml = r#"<root><data>x</data></root>"#;
    let doc = XmlDocument::new(xml.to_string());
    let keypair = KeyPair::generate(1024).unwrap();
    let signed = doc.sign(&keypair.private_key).unwrap();
    let tampered = SignedXmlDocument {
        content: signed.content.replace("data", "date"),
        signature: signed.signature.clone(),
    };
    assert!(!tampered.verify(&keypair.public_key).unwrap());
}

#[test]
fn test_key_mismatch() {
    let xml = r#"<root><data>test</data></root>"#;
    let doc = XmlDocument::new(xml.to_string());
    let keypair = KeyPair::generate(1024).unwrap();
    let other = KeyPair::generate(1024).unwrap();
    let signed = doc.sign(&keypair.private_key).unwrap();
    let result = signed.verify(&other.public_key).unwrap();
    assert!(!result);
}

#[test]
fn test_canonicalize_stripped_equals_original() {
    let xml = r#"<root><child id="1">Text</child><other/></root>"#;
    let doc = XmlDocument::new(xml.to_string());
    let keypair = KeyPair::generate(1024).unwrap();
    let signed = doc.sign(&keypair.private_key).unwrap();
    let stripped = signed.remove_signature_element().unwrap();
    assert_eq!(stripped.canonicalize().unwrap(), doc.canonicalize().unwrap());
}

#[test]
fn test_signature_presence() {
    let xml = r#"<root><data>test</data></root>"#;
    let doc = XmlDocument::new(xml.to_string());
    let keypair = KeyPair::generate(1024).unwrap();
    let signed = doc.sign(&keypair.private_key).unwrap();
    let nodes = signed.read_nodes().unwrap();
    let n_sig = nodes.iter().filter(|n| n.name == "Signature").count();
    let n_val = nodes.iter().filter(|n| n.name == "SignatureValue").count();
    assert_eq!(n_sig, 1);
    assert_eq!(n_val, 1);
    let val = nodes.iter().find(|n| n.name == "SignatureValue").unwrap();
    assert_eq!(val.text_content.as_deref(), Some(signed.signature.as_str()));
    assert!(signed.verify(&keypair.public_key).unwrap());
}

#[test]
fn test_sign_empty_document() {
    let keypair = KeyPair::generate(1024).unwrap();
    let doc = XmlDocument::new(String::new());
    assert_eq!(
        doc.sign(&keypair.private_key).unwrap_err(),
        XmlSignError::SignatureNotFound
    );
    let decl_only = XmlDocument::new("<?xml version=\"1.0\" encoding=\"UTF-8\"?>".to_string());
    assert_eq!(
        decl_only.sign(&keypair.private_key).unwrap_err(),
        XmlSignError::SignatureNotFound
    );
}

#[test]
fn test_sign_key_too_small_for_digest() {
    // A 512-bit modulus cannot hold a PKCS#1 v1.5 padded SHA-512 digest.
    let keypair = KeyPair::generate(512).unwrap();
    let doc = XmlDocument::new("<root>x</root>".to_string());
    assert_eq!(
        doc.sign(&keypair.private_key).unwrap_err(),
        XmlSignError::SignatureError
    );
}

#[test]
fn test_generate_rejects_tiny_modulus() {
    match KeyPair::generate(8) {
        Err(e) => assert_eq!(e, XmlSignError::RsaError),
        Ok(_) => panic!("key generation accepted a tiny modulus"),
    }
}

#[test]
fn test_verify_bad_base64() {
    let keypair = KeyPair::generate(1024).unwrap();
    let forged = SignedXmlDocument {
        content: "<root></root>".to_string(),
        signature: "!!!not base64!!!".to_string(),
    };
    assert_eq!(
        forged.verify(&keypair.public_key).unwrap_err(),
        XmlSignError::Base64Error
    );
}

#[test]
fn test_malformed_xml() {
    let doc = XmlDocument::new("<root><a></b></root>".to_string());
    assert_eq!(doc.read_nodes().unwrap_err(), XmlSignError::XmlError);
    assert_eq!(doc.canonicalize().unwrap_err(), XmlSignError::XmlError);
}

#[test]
fn test_canonicalize_drops_insignificant_whitespace() {
    let xml = "<root>\n  <a>hi</a>\n  <b x=\"1\"/>\n</root>";
    let doc = XmlDocument::new(xml.to_string());
    assert_eq!(doc.canonicalize().unwrap(), "<root><a>hi</a><b x=\"1\"/></root>");
}

#[test]
fn test_canonicalize_escapes_text() {
    let doc = XmlDocument::new("<root>a&amp;b</root>".to_string());
    // Text is re-escaped on canonical output, so the ampersand of the
    // entity reference is escaped once more.
    assert_eq!(doc.canonicalize().unwrap(), "<root>a&amp;amp;b</root>");
}

#[test]
fn test_canonicalize_is_reproducible() {
    let xml = "<root>\n  <a>hi</a>\n</root>";
    let doc = XmlDocument::new(xml.to_string());
    let first = doc.canonicalize().unwrap();
    let again = XmlDocument::new(first.clone()).canonicalize().unwrap();
    assert_eq!(first, again);
}

#[test]
fn test_find_node_and_find_all_nodes() {
    let xml = r#"<root><a id="1"/><a id="2"/><b/></root>"#;
    let doc = XmlDocument::new(xml.to_string());
    let all_a = doc.find_all_nodes("a").unwrap();
    assert_eq!(all_a.len(), 2);
    assert_eq!(all_a[0].get_attribute("id").map(|v| v.as_str()), Some("1"));
    assert_eq!(all_a[1].get_attribute("id").map(|v| v.as_str()), Some("2"));
    let b = doc.find_node("b").unwrap();
    assert_eq!(b.unwrap().name, "b");
    assert!(doc.find_node("missing").unwrap().is_none());
    let first_a = doc.find_node("a").unwrap().unwrap();
    assert_eq!(first_a.get_attribute("id").map(|v| v.as_str()), Some("1"));
    assert!(first_a.get_attribute("absent").is_none());
}

#[test]
fn test_text_attaches_to_last_opened_element() {
    // The node model is a flat list: a text run attaches to the most
    // recently opened element, and a later run replaces an earlier one.
    let xml = "<root><a>first</a>tail</root>";
    let doc = XmlDocument::new(xml.to_string());
    let nodes = doc.read_nodes().unwrap();
    assert_eq!(nodes.len(), 2);
    assert_eq!(nodes[1].name, "a");
    assert_eq!(nodes[1].text_content.as_deref(), Some("tail"));
}

#[test]
fn test_keypair_halves_match() {
    let keypair = KeyPair::generate(1024).unwrap();
    assert_eq!(keypair.public_key, rsa::RsaPublicKey::from(&keypair.private_key));
    assert_eq!(keypair.private_key.size(), 1024 / 8);
}

#[test]
fn test_signing_is_deterministic() {
    let xml = r#"<root><data>steady</data></root>"#;
    let keypair = KeyPair::generate(1024).unwrap();
    let first = XmlDocument::new(xml.to_string()).sign(&keypair.private_key).unwrap();
    let again = XmlDocument::new(xml.to_string()).sign(&keypair.private_key).unwrap();
    assert_eq!(first.signature, again.signature);
    assert_eq!(first.content, again.content);
}

#[test]
fn test_remove_signature_root_level_only() {
    // Only the first Signature subtree that is a direct child of the root
    // is removed; deeper or later ones pass through.
    let nested = SignedXmlDocument {
        content: "<root><a><Signature>x</Signature></a></root>".to_string(),
        signature: String::new(),
    };
    assert_eq!(
        nested.remove_signature_element().unwrap().content,
        "<root><a><Signature>x</Signature></a></root>"
    );
    let two = SignedXmlDocument {
        content: "<root><Signature>a</Signature><Signature>b</Signature></root>".to_string(),
        signature: String::new(),
    };
    assert_eq!(
        two.remove_signature_element().unwrap().content,
        "<root><Signature>b</Signature></root>"
    );
}

#[test]
fn test_error_messages() {
    assert!(!XmlSignError::XmlError.message().is_empty());
    assert!(!XmlSignError::SignatureNotFound.message().is_empty());
}
