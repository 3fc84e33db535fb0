use rue::tree_path::{first_path, parent_path, path_to_atom, rest_path, TreePath};

fn path(n: u64) -> TreePath {
    TreePath::from_u64(n)
}

fn atom(p: &TreePath) -> Vec<u8> {
    path_to_atom(p)
}

fn same(a: &TreePath, b: &TreePath) -> bool {
    atom(a) == atom(b)
}

fn parent_is(p: &TreePath, expected: Option<u64>) -> bool {
    match (parent_path(p), expected) {
        (None, None) => true,
        (Some(found), Some(n)) => same(&found, &path(n)),
        _ => false,
    }
}

#[test]
fn test_path_to_atom() {
    assert_eq!(path_to_atom(&path(0)), Vec::<u8>::new());
    assert_eq!(path_to_atom(&path(1)), [0x01]);
    assert_eq!(path_to_atom(&path(3)), [0x03]);
    assert_eq!(path_to_atom(&path(128)), [0x80]);
    assert_eq!(path_to_atom(&path(300)), [0x01, 0x2C]);
}

#[test]
fn test_first_path() {
    assert!(same(&first_path(&path(1)), &path(2)));
    assert!(same(&first_path(&path(2)), &path(4)));
    assert!(same(&first_path(&path(5)), &path(9)));
}

#[test]
fn test_rest_path() {
    assert!(same(&rest_path(&path(1)), &path(3)));
    assert!(same(&rest_path(&path(2)), &path(6)));
    assert!(same(&rest_path(&path(5)), &path(13)));
}

#[test]
fn test_parent_path() {
    assert!(parent_is(&path(0), None));
    assert!(parent_is(&path(1), None));
    assert!(parent_is(&path(2), Some(1)));
    assert!(parent_is(&path(3), Some(1)));
    assert!(parent_is(&path(4), Some(2)));
    assert!(parent_is(&path(6), Some(2)));
    assert!(parent_is(&path(5), Some(3)));
    assert!(parent_is(&path(7), Some(3)));
    assert!(parent_is(&path(8), Some(4)));
    assert!(parent_is(&path(12), Some(4)));
    assert!(parent_is(&path(10), Some(6)));
    assert!(parent_is(&path(14), Some(6)));
    assert!(parent_is(&path(9), Some(5)));
    assert!(parent_is(&path(13), Some(5)));
    assert!(parent_is(&path(11), Some(7)));
    assert!(parent_is(&path(15), Some(7)));

    for n in 1..u64::from(u16::MAX) {
        let p = path(n);
        assert!(parent_is(&first_path(&p), Some(n)));
        assert!(parent_is(&rest_path(&p), Some(n)));
    }
}

#[test]
fn test_arbitrarily_large_path() {
    let mut p = path(1);

    for _ in 0..100 {
        p = rest_path(&p);
    }

    assert_eq!(p.bits(), 101);
    assert_eq!(path_to_atom(&p).len(), 13);

    for _ in 0..100 {
        p = parent_path(&p).unwrap();
    }

    assert!(same(&p, &path(1)));
}

#[test]
fn leading_zero_bytes_are_dropped_from_atoms() {
    let p = TreePath::from_bytes_be(vec![0, 0, 1, 0x2C]);
    assert_eq!(path_to_atom(&p), [0x01, 0x2C]);
    assert_eq!(p.bits(), 9);
}

#[test]
fn first_and_rest_of_a_path_are_siblings() {
    for n in [1u64, 2, 3, 7, 100, 1 << 40] {
        let p = path(n);
        let first = first_path(&p);
        let rest = rest_path(&p);
        assert!(!same(&first, &rest));
        assert_eq!(first.bits(), p.bits() + 1);
        assert_eq!(rest.bits(), p.bits() + 1);
    }
}

#[test]
fn first_path_of_zero_is_the_first_root_step() {
    assert!(same(&first_path(&path(0)), &path(2)));
    assert!(same(&rest_path(&path(0)), &path(3)));
}
