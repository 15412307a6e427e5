use nixcp::nar::{pack, DirEntry, Node};

/// Independent rendering of one length-prefixed padded field.
fn field(data: &[u8]) -> Vec<u8> {
    let mut out = (data.len() as u64).to_le_bytes().to_vec();
    out.extend_from_slice(data);
    while out.len() % 8 != 0 {
        out.push(0);
    }
    out
}

fn fields(parts: &[&[u8]]) -> Vec<u8> {
    let mut out = Vec::new();
    for p in parts {
        out.extend_from_slice(&field(p));
    }
    out
}

#[test]
fn archive_of_a_plain_file() {
    let node = Node::File { executable: false, contents: b"hello\n".to_vec() };
    let expected = fields(&[
        b"nix-archive-1",
        b"(",
        b"type",
        b"regular",
        b"contents",
        b"hello\n",
        b")",
    ]);
    assert_eq!(pack(&node), expected);
}

#[test]
fn archive_of_an_executable_file() {
    let node = Node::File { executable: true, contents: b"#!/bin/sh\n".to_vec() };
    let expected = fields(&[
        b"nix-archive-1",
        b"(",
        b"type",
        b"regular",
        b"executable",
        b"",
        b"contents",
        b"#!/bin/sh\n",
        b")",
    ]);
    assert_eq!(pack(&node), expected);
}

#[test]
fn archive_of_a_symlink() {
    let node = Node::Symlink { target: b"/nix/store/target".to_vec() };
    let expected = fields(&[
        b"nix-archive-1",
        b"(",
        b"type",
        b"symlink",
        b"target",
        b"/nix/store/target",
        b")",
    ]);
    assert_eq!(pack(&node), expected);
}

#[test]
fn archive_of_a_directory_lists_entries_in_order() {
    let node = Node::Directory {
        entries: vec![
            DirEntry {
                name: b"a.txt".to_vec(),
                node: Node::File { executable: false, contents: b"A".to_vec() },
            },
            DirEntry {
                name: b"b".to_vec(),
                node: Node::Symlink { target: b"a.txt".to_vec() },
            },
        ],
    };
    let expected = fields(&[
        b"nix-archive-1",
        b"(",
        b"type",
        b"directory",
        b"entry",
        b"(",
        b"name",
        b"a.txt",
        b"node",
        b"(",
        b"type",
        b"regular",
        b"contents",
        b"A",
        b")",
        b")",
        b"entry",
        b"(",
        b"name",
        b"b",
        b"node",
        b"(",
        b"type",
        b"symlink",
        b"target",
        b"a.txt",
        b")",
        b")",
        b")",
    ]);
    assert_eq!(pack(&node), expected);
}

#[test]
fn archive_of_an_empty_directory() {
    let node = Node::Directory { entries: Vec::new() };
    let expected = fields(&[b"nix-archive-1", b"(", b"type", b"directory", b")"]);
    assert_eq!(pack(&node), expected);
}
