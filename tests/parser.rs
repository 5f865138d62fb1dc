use device_tree_parser::{display_node, DeviceTreeParser, Node, ParseError, Tag};

fn word(out: &mut Vec<u8>, v: u32) {
    out.extend_from_slice(&v.to_be_bytes());
}

fn pad(out: &mut Vec<u8>) {
    while out.len() % 4 != 0 {
        out.push(0);
    }
}

fn begin(out: &mut Vec<u8>, name: &str) {
    word(out, 1);
    out.extend_from_slice(name.as_bytes());
    out.push(0);
    pad(out);
}

fn prop(out: &mut Vec<u8>, name_off: u32, data: &[u8]) {
    word(out, 3);
    word(out, data.len() as u32);
    word(out, name_off);
    out.extend_from_slice(data);
    pad(out);
}

/// A blob of `version` whose structure block is `body` followed by an end
/// tag, and whose strings block is `strings`.
fn blob(version: u32, body: &[u8], strings: &[u8]) -> Vec<u8> {
    let mut header_words = 6;
    if version > 2 {
        header_words += 1;
    }
    if version > 3 {
        header_words += 1;
    }
    if version > 17 {
        header_words += 1;
    }
    let off_struct = 4 + 4 * header_words;
    let off_strings = off_struct + body.len() as u32 + 4;
    let total = off_strings + strings.len() as u32;
    let mut out = Vec::new();
    word(&mut out, 0xd00dfeed);
    word(&mut out, total);
    word(&mut out, off_struct);
    word(&mut out, off_strings);
    word(&mut out, off_struct);
    word(&mut out, version);
    word(&mut out, 16);
    if version > 2 {
        word(&mut out, 5);
    }
    if version > 3 {
        word(&mut out, strings.len() as u32);
    }
    if version > 17 {
        word(&mut out, body.len() as u32 + 4);
    }
    out.extend_from_slice(body);
    word(&mut out, 9);
    out.extend_from_slice(strings);
    out
}

fn minimal_body() -> Vec<u8> {
    let mut body = Vec::new();
    begin(&mut body, "");
    prop(&mut body, 0, b"test\0");
    word(&mut body, 2);
    body
}

#[test]
fn parse_minimal_blob() {
    let buf = blob(17, &minimal_body(), b"compatible\0");
    let mut parser = DeviceTreeParser::new(&buf);
    let tree = parser.parse().unwrap();
    let root = tree.root();
    assert_eq!(root.name, Vec::<u8>::new());
    assert_eq!(root.properties.len(), 1);
    assert_eq!(root.properties[0].name(), &b"compatible"[..]);
    assert_eq!(root.properties[0].data(), &b"test\0"[..]);
    assert_eq!(root.children.len(), 0);
    assert_eq!(tree.header().version, 17);
    assert_eq!(tree.header().last_comp_version, 16);
    assert_eq!(tree.header().boot_cpuid_phys, 5);
    assert_eq!(tree.header().size_dt_strings, 11);
    assert_eq!(tree.header().size_dt_struct, 0);
    assert_eq!(tree.header().off_dt_struct, 36);
    assert_eq!(tree.header().totalsize, buf.len() as u32);
}

#[test]
fn tag_from_u32_known_words() {
    assert_eq!(Tag::from_u32(1), Ok(Tag::BeginNode));
    assert_eq!(Tag::from_u32(2), Ok(Tag::EndNode));
    assert_eq!(Tag::from_u32(3), Ok(Tag::Property));
    assert_eq!(Tag::from_u32(9), Ok(Tag::End));
    assert_eq!(Tag::from_u32(0xd00dfeed), Ok(Tag::Magic));
}

#[test]
fn tag_from_u32_other_words() {
    for v in [0u32, 4, 5, 8, 10, 0xd00dfeee, 0xedfe0dd0, u32::MAX] {
        assert_eq!(Tag::from_u32(v), Err(ParseError::InvalidTag));
    }
}

#[test]
fn truncated_blob_fails() {
    let buf = blob(17, &minimal_body(), b"compatible\0");
    // the root's end tag sits at 64..68
    for k in 0..68 {
        let mut parser = DeviceTreeParser::new(&buf[..k]);
        let r = parser.parse();
        assert!(
            matches!(r, Err(ParseError::ReadError) | Err(ParseError::UnexpectedTag)),
            "cut at {}",
            k
        );
    }
}

#[test]
fn version_two_header_has_six_fields() {
    let buf = blob(2, &minimal_body(), b"compatible\0");
    let mut parser = DeviceTreeParser::new(&buf);
    let tree = parser.parse().unwrap();
    let h = tree.header();
    assert_eq!(h.off_dt_struct, 28);
    assert_eq!(h.boot_cpuid_phys, 0);
    assert_eq!(h.size_dt_strings, 0);
    assert_eq!(h.size_dt_struct, 0);
    assert_eq!(tree.root().properties[0].name(), &b"compatible"[..]);
}

#[test]
fn version_twenty_header_has_nine_fields() {
    let body = minimal_body();
    let buf = blob(20, &body, b"compatible\0");
    let mut parser = DeviceTreeParser::new(&buf);
    let tree = parser.parse().unwrap();
    let h = tree.header();
    assert_eq!(h.off_dt_struct, 40);
    assert_eq!(h.boot_cpuid_phys, 5);
    assert_eq!(h.size_dt_strings, 11);
    assert_eq!(h.size_dt_struct, body.len() as u32 + 4);
}

#[test]
fn payload_longer_than_blob_fails() {
    let mut body = Vec::new();
    begin(&mut body, "");
    word(&mut body, 3);
    word(&mut body, 1000);
    word(&mut body, 0);
    body.extend_from_slice(b"test");
    word(&mut body, 2);
    let buf = blob(17, &body, b"compatible\0");
    let mut parser = DeviceTreeParser::new(&buf);
    assert_eq!(parser.parse().err(), Some(ParseError::ReadError));
}

#[test]
fn node_names_with_each_padding() {
    let names = ["", "a", "ab", "abc", "abcd", "cpus0", "memory", "chosen7"];
    let mut body = Vec::new();
    begin(&mut body, names[0]);
    for name in &names[1..] {
        begin(&mut body, name);
        word(&mut body, 2);
    }
    word(&mut body, 2);
    let buf = blob(17, &body, b"");
    let mut parser = DeviceTreeParser::new(&buf);
    let tree = parser.parse().unwrap();
    let root: &Node = tree.root();
    assert_eq!(root.name.len(), 0);
    assert_eq!(root.children.len(), names.len() - 1);
    for (child, name) in root.children.iter().zip(&names[1..]) {
        assert_eq!(child.name, name.as_bytes().to_vec());
        assert_eq!(child.children.len(), 0);
    }
}

#[test]
fn missing_end_node_is_unexpected_tag() {
    let mut body = Vec::new();
    begin(&mut body, "");
    begin(&mut body, "child");
    word(&mut body, 2);
    let buf = blob(17, &body, b"");
    let mut parser = DeviceTreeParser::new(&buf);
    assert_eq!(parser.parse().err(), Some(ParseError::UnexpectedTag));
}

#[test]
fn properties_keep_their_order() {
    let strings = b"compatible\0model\0reg\0";
    let mut body = Vec::new();
    begin(&mut body, "");
    prop(&mut body, 11, b"board");
    prop(&mut body, 0, b"vendor,board\0");
    prop(&mut body, 17, &[0, 0, 0, 1, 0, 0, 0, 2]);
    begin(&mut body, "cpus");
    prop(&mut body, 0, b"");
    word(&mut body, 2);
    word(&mut body, 2);
    let buf = blob(17, &body, strings);
    let mut parser = DeviceTreeParser::new(&buf);
    let tree = parser.parse().unwrap();
    let root = tree.root();
    assert_eq!(root.properties.len(), 3);
    assert_eq!(root.properties[0].name(), &b"model"[..]);
    assert_eq!(root.properties[0].data(), &b"board"[..]);
    assert_eq!(root.properties[1].name(), &b"compatible"[..]);
    assert_eq!(root.properties[1].data(), &b"vendor,board\0"[..]);
    assert_eq!(root.properties[2].name(), &b"reg"[..]);
    assert_eq!(root.properties[2].data(), &[0u8, 0, 0, 1, 0, 0, 0, 2][..]);
    assert_eq!(root.children.len(), 1);
    assert_eq!(root.children[0].name, b"cpus".to_vec());
    assert_eq!(root.children[0].properties[0].name(), &b"compatible"[..]);
    assert_eq!(root.children[0].properties[0].data(), &b""[..]);
}

#[test]
fn wrong_magic_is_invalid_magic() {
    let mut buf = blob(17, &minimal_body(), b"compatible\0");
    buf[0..4].copy_from_slice(&1u32.to_be_bytes());
    let mut parser = DeviceTreeParser::new(&buf);
    assert_eq!(parser.parse().err(), Some(ParseError::InvalidMagic));
}

#[test]
fn unknown_first_word_is_invalid_tag() {
    let mut buf = blob(17, &minimal_body(), b"compatible\0");
    buf[0..4].copy_from_slice(&0x12345678u32.to_be_bytes());
    let mut parser = DeviceTreeParser::new(&buf);
    assert_eq!(parser.parse().err(), Some(ParseError::InvalidTag));
    assert_eq!(parser.pos(), 4);
}

#[test]
fn empty_structure_block_has_no_root() {
    let buf = blob(17, &[], b"");
    let mut parser = DeviceTreeParser::new(&buf);
    assert_eq!(parser.parse().err(), Some(ParseError::NoRootFound));
}

#[test]
fn empty_buffer_is_read_error() {
    let mut parser = DeviceTreeParser::new(&[]);
    assert_eq!(parser.parse().err(), Some(ParseError::ReadError));
    assert_eq!(parser.pos(), 0);
}

#[test]
fn name_offset_outside_blob_is_read_error() {
    let mut body = Vec::new();
    begin(&mut body, "");
    prop(&mut body, 5000, b"x");
    word(&mut body, 2);
    let buf = blob(17, &body, b"compatible\0");
    let mut parser = DeviceTreeParser::new(&buf);
    assert_eq!(parser.parse().err(), Some(ParseError::ReadError));
}

#[test]
fn unknown_tag_in_structure_is_invalid_tag() {
    let mut body = Vec::new();
    begin(&mut body, "");
    word(&mut body, 4);
    word(&mut body, 2);
    let buf = blob(17, &body, b"");
    let mut parser = DeviceTreeParser::new(&buf);
    assert_eq!(parser.parse().err(), Some(ParseError::InvalidTag));
}

#[test]
fn display_parsed_properties() {
    let strings = b"compatible\0model\0";
    let mut body = Vec::new();
    begin(&mut body, "");
    prop(&mut body, 11, b"board");
    begin(&mut body, "cpus");
    prop(&mut body, 0, b"arm");
    word(&mut body, 2);
    word(&mut body, 2);
    let buf = blob(17, &body, strings);
    let mut parser = DeviceTreeParser::new(&buf);
    let tree = parser.parse().unwrap();
    assert_eq!(
        display_node(tree.root(), 0),
        "|- /\n   model: board\n   |- \"cpus\"\n      compatible: arm\n"
    );
}

#[test]
fn payload_into_strings_block_fails() {
    let mut buf = blob(17, &minimal_body(), b"compatible\0");
    // the payload starts at 56 and the strings block at 72; 20 bytes reach 76
    assert_eq!(u32::from_be_bytes([buf[12], buf[13], buf[14], buf[15]]), 72);
    buf[48..52].copy_from_slice(&20u32.to_be_bytes());
    let mut parser = DeviceTreeParser::new(&buf);
    assert_eq!(parser.parse().err(), Some(ParseError::ReadError));
    assert!(parser.pos() <= buf.len());
}

#[test]
fn payload_up_to_strings_block_is_kept() {
    let mut body = Vec::new();
    begin(&mut body, "");
    prop(&mut body, 0, b"abcd");
    word(&mut body, 2);
    let buf = blob(17, &body, b"compatible\0");
    let mut parser = DeviceTreeParser::new(&buf);
    let tree = parser.parse().unwrap();
    assert_eq!(tree.root().properties[0].data(), &b"abcd"[..]);
}

#[test]
fn failed_name_lookup_leaves_position_in_structure() {
    let mut body = Vec::new();
    begin(&mut body, "");
    prop(&mut body, 5000, b"x");
    word(&mut body, 2);
    let buf = blob(17, &body, b"compatible\0");
    let mut parser = DeviceTreeParser::new(&buf);
    assert_eq!(parser.parse().err(), Some(ParseError::ReadError));
    // back after the payload and its padding, where the record ends
    assert_eq!(parser.pos(), 60);
}
