use fsengine::treecopy::{ChildProbe, TreeCopyMachine};

fn child(name: &str, is_dir: bool) -> ChildProbe {
    ChildProbe { name: name.to_string(), is_dir }
}

#[test]
fn tree_copy_preserves_relative_structure() {
    let mut m = TreeCopyMachine::new("/src/tree".to_string(), "/dst/tree".to_string());
    let mut copies: Vec<(String, String, String)> = Vec::new();
    let mut dirs: Vec<(String, String)> = Vec::new();

    while let Some(d) = m.next_dir() {
        dirs.push((d.src.clone(), d.dst.clone()));
        let children = match d.rel.as_str() {
            "" => vec![child("a.txt", false), child("sub", true)],
            "sub" => vec![child("b.txt", false), child("inner", true)],
            "sub/inner" => vec![child("c.txt", false)],
            _ => Vec::new(),
        };
        let files = m.offer_children(&d, &children);
        for f in files {
            copies.push((f.rel.clone(), f.src.clone(), f.dst.clone()));
        }
    }

    // Every directory pair and every file pair stands at the same
    // relative path under the two roots.
    for (s, t) in &dirs {
        let rel_s = s.strip_prefix("/src/tree").unwrap();
        let rel_t = t.strip_prefix("/dst/tree").unwrap();
        assert_eq!(rel_s, rel_t);
    }
    for (rel, s, t) in &copies {
        if rel.is_empty() {
            panic!("a file copy always has a name");
        }
        assert_eq!(s, &format!("/src/tree/{}", rel));
        assert_eq!(t, &format!("/dst/tree/{}", rel));
    }
    let mut rels: Vec<&str> = copies.iter().map(|c| c.0.as_str()).collect();
    rels.sort();
    assert_eq!(rels, vec!["a.txt", "sub/b.txt", "sub/inner/c.txt"]);
}

#[test]
fn empty_tree_copies_only_the_root() {
    let mut m = TreeCopyMachine::new("/s".to_string(), "/d".to_string());
    let d = m.next_dir().unwrap();
    assert_eq!(d.src, "/s");
    assert_eq!(d.dst, "/d");
    let files = m.offer_children(&d, &Vec::new());
    assert!(files.is_empty());
    assert!(m.next_dir().is_none());
}
