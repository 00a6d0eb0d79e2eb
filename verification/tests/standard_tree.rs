use tree_cursor::cursor::{SetPosError, TreeCursor, TreeCursorMut};
use tree_cursor::vec_tree::VecTree;
use tree_cursor::TakeChild;

fn go(t: &mut VecTree) -> usize {
    let mut down_count = 0;
    {
        let mut up_count = 0;
        let mut c = TreeCursor::new(0);
        loop {
            while c.down(t) {
                down_count += 1;
            }
            if !c.up() {
                break;
            }
            up_count += 1;
        }
        assert!(c.down(t));
        assert_eq!(down_count, up_count);
    }

    let mut down_count_mut = 0;
    {
        let mut up_count_mut = 0;
        let mut c = TreeCursorMut::new(0);
        loop {
            while c.down(t) {
                down_count_mut += 1;
            }
            if !c.up() {
                break;
            }
            up_count_mut += 1;
        }
        assert!(c.down(t));
        assert_eq!(down_count_mut, up_count_mut);
    }

    assert_eq!(down_count, down_count_mut);

    down_count
}

#[test]
fn standard_tree_full_traversal() {
    {
        let t = VecTree::new();
        let mut c = TreeCursor::new(0);
        assert!(!c.down(&t));
        assert!(!c.up());
        assert!(!c.down(&t));
    }
    {
        // root -> [leaf]
        let mut t = VecTree::new();
        t.add_child(0);
        assert_eq!(go(&mut t), 1);
    }
    {
        // root -> [leaf, leaf]
        let mut t = VecTree::new();
        t.add_child(0);
        t.add_child(0);
        assert_eq!(go(&mut t), 2);
    }
    {
        // root -> [a, leaf]; a -> [leaf]
        let mut t = VecTree::new();
        let a = t.add_child(0);
        t.add_child(0);
        t.add_child(a);
        assert_eq!(go(&mut t), 3);
    }
    {
        // root -> [a, b]; a -> [leaf]; b -> [leaf]
        let mut t = VecTree::new();
        let a = t.add_child(0);
        let b = t.add_child(0);
        t.add_child(a);
        t.add_child(b);
        assert_eq!(go(&mut t), 4);
    }
}

#[test]
fn standard_tree_get() {
    // root 0 -> [1, 4]; 1 -> [2, 3]
    let mut t = VecTree::new();
    let a = t.add_child(0);
    t.add_child(a);
    t.add_child(a);
    t.add_child(0);

    let mut c = TreeCursor::new(0);
    let mut cm = TreeCursorMut::new(0);
    let mut cm2 = TreeCursorMut::new(0);
    assert_eq!(c.get(), 0);
    assert_eq!(cm.get(), cm.get_mut());
    assert_eq!(t.child_count(cm.get()), 2);
    assert_eq!(t.child_count(cm2.get()), 2);

    assert!(c.down(&t));
    assert!(cm.down(&mut t));
    assert!(cm2.down(&mut t));
    assert_eq!(c.get(), 1);
    assert_eq!(cm.get(), cm.get_mut());
    assert_eq!(t.child_count(cm.get()), 2);
    assert_eq!(t.child_count(cm2.get()), 2);

    assert!(c.down(&t));
    assert!(cm.down(&mut t));
    assert!(cm2.down(&mut t));
    assert_eq!(c.get(), 2);
    assert_eq!(cm.get(), cm.get_mut());
    assert_eq!(t.child_count(cm.get()), 0);
    assert_eq!(t.child_count(cm2.get()), 0);

    assert!(!c.down(&t));
    assert!(!cm.down(&mut t));
    assert!(!cm2.down(&mut t));
    assert_eq!(c.get(), 2);
    assert_eq!(cm.get(), cm.get_mut());
    assert_eq!(t.child_count(cm.get()), 0);
    assert_eq!(t.child_count(cm2.get()), 0);

    assert!(c.up());
    assert!(cm.up());
    assert!(cm2.up());
    assert_eq!(c.get(), 1);
    assert_eq!(cm.get(), cm.get_mut());
    assert_eq!(t.child_count(cm.get()), 2);
    assert_eq!(t.child_count(cm2.get()), 2);

    let mut c2 = TreeCursor::from(cm2);

    assert!(c.down(&t));
    assert!(c2.down(&t));
    assert!(cm.down(&mut t));
    assert_eq!(c.get(), 3);
    assert_eq!(cm.get(), cm.get_mut());
    assert_eq!(t.child_count(cm.get()), 0);
    assert_eq!(t.child_count(c2.get()), 0);

    let cm_pos = cm.pos();

    assert!(!c.down(&t));
    assert!(!c2.down(&t));
    assert!(!cm.down(&mut t));
    assert_eq!(c.get(), 3);
    assert_eq!(cm.get(), cm.get_mut());
    assert_eq!(t.child_count(cm.get()), 0);
    assert_eq!(t.child_count(c2.get()), 0);

    assert!(c.up());
    assert!(c2.up());
    assert!(cm.up());
    assert_eq!(c.get(), 1);
    assert_eq!(cm.get(), cm.get_mut());
    assert_eq!(t.child_count(cm.get()), 2);
    assert_eq!(t.child_count(c2.get()), 2);

    assert!(!c.down(&t));
    assert!(!c2.down(&t));
    assert!(!cm.down(&mut t));
    assert_eq!(c.get(), 1);
    assert_eq!(cm.get(), cm.get_mut());
    assert_eq!(t.child_count(cm.get()), 2);
    assert_eq!(t.child_count(c2.get()), 2);

    assert!(c.up());
    assert!(c2.up());
    assert!(cm.up());
    assert_eq!(c.get(), 0);
    assert_eq!(cm.get(), cm.get_mut());
    assert_eq!(t.child_count(cm.get()), 2);
    assert_eq!(t.child_count(c2.get()), 2);

    assert!(c.down(&t));
    assert!(c2.down(&t));
    assert!(cm.down(&mut t));
    assert_eq!(c.get(), 4);
    assert_eq!(cm.get(), cm.get_mut());
    assert_eq!(t.child_count(cm.get()), 0);
    assert_eq!(t.child_count(c2.get()), 0);

    assert!(!c.down(&t));
    assert!(!c2.down(&t));
    assert!(!cm.down(&mut t));
    assert_eq!(c.get(), 4);
    assert_eq!(cm.get(), cm.get_mut());
    assert_eq!(t.child_count(cm.get()), 0);
    assert_eq!(t.child_count(c2.get()), 0);

    assert!(c.up());
    assert!(c2.up());
    assert!(cm.up());
    assert_eq!(c.get(), 0);
    assert_eq!(cm.get(), cm.get_mut());
    assert_eq!(t.child_count(cm.get()), 2);
    assert_eq!(t.child_count(c2.get()), 2);

    assert!(!c.up());
    assert!(!c2.up());
    assert!(!cm.up());
    assert_eq!(c.get(), 0);
    assert_eq!(cm.get(), cm.get_mut());
    assert_eq!(t.child_count(cm.get()), 2);
    assert_eq!(t.child_count(c2.get()), 2);

    cm.set_pos(&mut t, &cm_pos).unwrap();

    assert!(!cm.down(&mut t));
    assert_eq!(cm.get(), cm.get_mut());
    assert_eq!(t.child_count(cm.get()), 0);

    assert!(cm.up());
    assert_eq!(cm.get(), cm.get_mut());
    assert_eq!(t.child_count(cm.get()), 2);

    assert!(!cm.down(&mut t));
    assert_eq!(cm.get(), cm.get_mut());
    assert_eq!(t.child_count(cm.get()), 2);

    assert!(cm.up());
    assert_eq!(cm.get(), cm.get_mut());
    assert_eq!(t.child_count(cm.get()), 2);

    assert!(cm.down(&mut t));
    assert_eq!(cm.get(), cm.get_mut());
    assert_eq!(t.child_count(cm.get()), 0);

    assert!(!cm.down(&mut t));
    assert_eq!(cm.get(), cm.get_mut());
    assert_eq!(t.child_count(cm.get()), 0);

    assert!(cm.up());
    assert_eq!(cm.get(), cm.get_mut());
    assert_eq!(t.child_count(cm.get()), 2);

    assert!(!cm.up());
    assert_eq!(cm.get(), cm.get_mut());
    assert_eq!(t.child_count(cm.get()), 2);
}

#[test]
fn standard_tree_scoped_down() {
    // root 0 -> [1]; 1 -> [2, 3, 5]; 3 -> [4]
    let mut t = VecTree::new();
    let a = t.add_child(0);
    t.add_child(a);
    let b = t.add_child(a);
    t.add_child(b);
    t.add_child(a);

    let mut c = TreeCursor::new(0);
    let mut cm = TreeCursorMut::new(0);

    {
        let mut c1 = c.split_below(&t).unwrap();
        let mut cm1 = cm.split_below(&mut t).unwrap();
        assert!(cm.is_suspended());
        assert!(!c1.up());
        assert!(!cm1.up());
        {
            let mut c2 = c1.split_below(&t).unwrap();
            let mut cm2 = cm1.split_below(&mut t).unwrap();
            assert!(!c2.up());
            assert!(!cm2.up());
            assert!(c2.split_below(&t).is_none());
            assert!(cm2.split_below(&mut t).is_none());
            assert!(!c2.up());
            assert!(!cm2.up());
            cm1.resume(cm2);
        }
        {
            let mut c2 = c1.split_below(&t).unwrap();
            let mut cm2 = cm1.split_below(&mut t).unwrap();
            assert!(!c2.up());
            assert!(!cm2.up());
            {
                let mut c3 = c2.split_below(&t).unwrap();
                let mut cm3 = cm2.split_below(&mut t).unwrap();
                assert!(!c3.up());
                assert!(!cm3.up());
                assert!(c3.split_below(&t).is_none());
                assert!(cm3.split_below(&mut t).is_none());
                assert!(!c3.up());
                assert!(!cm3.up());
                cm2.resume(cm3);
            }
            assert!(c2.split_below(&t).is_none());
            assert!(cm2.split_below(&mut t).is_none());
            assert!(!c2.up());
            assert!(!cm2.up());
            assert!(c2.down(&t));
            assert!(cm2.down(&mut t));
            cm1.resume(cm2);
        }
        {
            let mut c2 = c1.split_below(&t).unwrap();
            let mut cm2 = cm1.split_below(&mut t).unwrap();
            assert!(c2.split_below(&t).is_none());
            assert!(cm2.split_below(&mut t).is_none());
            cm1.resume(cm2);
        }
        assert!(c1.split_below(&t).is_none());
        assert!(cm1.split_below(&mut t).is_none());
        assert!(!c1.up());
        assert!(!cm1.up());
        assert!(c1.down(&t));
        assert!(cm1.down(&mut t));
        cm.resume(cm1);
    }
    assert!(c.split_below(&t).is_none());
    assert!(cm.split_below(&mut t).is_none());
    assert!(!c.up());
    assert!(!cm.up());
    assert!(c.down(&t));
    assert!(cm.down(&mut t));
}

#[test]
fn take() {
    // root 0 -> [1]; 1 -> [2, 3, 5]; 3 -> [4]
    let mut t = VecTree::new();
    let a = t.add_child(0);
    t.add_child(a);
    let b = t.add_child(a);
    t.add_child(b);
    t.add_child(a);

    let mut c = TreeCursor::new(0);
    let mut cm = TreeCursorMut::new(0);

    {
        assert!(c.down(&t));
        assert!(cm.down(&mut t));
        let mut c1 = c.split_above().unwrap();
        let mut cm1 = cm.split_above().unwrap();
        assert!(cm.is_suspended());
        assert!(!c1.up());
        assert!(!cm1.up());
        {
            assert!(c1.down(&t));
            assert!(cm1.down(&mut t));
            let mut c2 = c1.split_above().unwrap();
            let mut cm2 = cm1.split_above().unwrap();
            assert!(!c2.up());
            assert!(!cm2.up());
            assert!(!c2.down(&t));
            assert!(!cm2.down(&mut t));
            assert!(!c2.up());
            assert!(!cm2.up());
            cm1.resume(cm2);
        }
        {
            assert!(c1.down(&t));
            assert!(cm1.down(&mut t));
            let mut c2 = c1.split_above().unwrap();
            let mut cm2 = cm1.split_above().unwrap();
            assert!(!c2.up());
            assert!(!cm2.up());
            {
                assert!(c2.down(&t));
                assert!(cm2.down(&mut t));
                let mut c3 = c2.split_above().unwrap();
                let mut cm3 = cm2.split_above().unwrap();
                assert!(!c3.up());
                assert!(!cm3.up());
                assert!(!c3.down(&t));
                assert!(!cm3.down(&mut t));
                assert!(!c3.up());
                assert!(!cm3.up());
                cm2.resume(cm3);
            }
            assert!(!c2.down(&t));
            assert!(!cm2.down(&mut t));
            assert!(!c2.up());
            assert!(!cm2.up());
            assert!(c2.down(&t));
            assert!(cm2.down(&mut t));
            cm1.resume(cm2);
        }
        {
            assert!(c1.down(&t));
            assert!(cm1.down(&mut t));
            let mut c2 = c1.split_above().unwrap();
            let mut cm2 = cm1.split_above().unwrap();
            assert!(!c2.down(&t));
            assert!(!cm2.down(&mut t));
            cm1.resume(cm2);
        }
        assert!(!c1.down(&t));
        assert!(!cm1.down(&mut t));
        assert!(!c1.up());
        assert!(!cm1.up());
        assert!(c1.down(&t));
        assert!(cm1.down(&mut t));
        cm.resume(cm1);
    }
    assert!(!c.down(&t));
    assert!(!cm.down(&mut t));
    assert!(!c.up());
    assert!(!cm.up());
    assert!(c.down(&t));
    assert!(cm.down(&mut t));
}

#[test]
fn standard_tree_iter_down() {
    // root 0 -> [1, 2, 3]; 1 -> [4]; 2 -> [5, 6]; 3 -> [7, 8, 9]
    let mut t = VecTree::new();
    let a = t.add_child(0);
    let b = t.add_child(0);
    let c3 = t.add_child(0);
    t.add_child(a);
    t.add_child(b);
    t.add_child(b);
    t.add_child(c3);
    t.add_child(c3);
    t.add_child(c3);

    let mut c = TreeCursor::new(0);

    let mut leaf_count = 0;
    while let Some(mut c) = c.split_below(&t) {
        while let Some(_) = c.split_below(&t) {
            leaf_count += 1;
        }
    }
    assert_eq!(leaf_count, 6);
}

#[test]
fn set_pos_error() {
    // root 0 -> [1, 2, 3]; 1 -> [4]; 3 -> [5, 6]
    let mut t = VecTree::new();
    let a = t.add_child(0);
    t.add_child(0);
    let c3 = t.add_child(0);
    t.add_child(a);
    t.add_child(c3);
    t.add_child(c3);

    let mut cm = TreeCursorMut::new(0);
    assert_eq!(t.child_count(cm.get()), 3);

    assert!(cm.down(&mut t));
    assert_eq!(t.child_count(cm.get()), 1);

    assert!(cm.up());
    assert_eq!(t.child_count(cm.get()), 3);

    assert!(cm.down(&mut t));
    assert_eq!(t.child_count(cm.get()), 0);

    assert!(cm.up());
    assert_eq!(t.child_count(cm.get()), 3);

    assert!(cm.down(&mut t));
    assert_eq!(t.child_count(cm.get()), 2);

    let p = cm.pos();

    cm.set_pos(&mut t, &p).unwrap();
    assert_eq!(t.child_count(cm.get()), 2);

    assert!(cm.up());
    assert_eq!(t.child_count(cm.get()), 3);

    // set_pos() is idempotent.
    cm.set_pos(&mut t, &p).unwrap();
    cm.set_pos(&mut t, &p).unwrap();
    assert_eq!(t.child_count(cm.get()), 2);

    assert!(cm.up());
    assert_eq!(t.child_count(cm.get()), 3);

    t.take_child(0, 2);

    assert_eq!(cm.set_pos(&mut t, &p).unwrap_err(), SetPosError::MissingNode);

    t.take_child(0, 1);
    t.add_child(0);

    assert_eq!(cm.set_pos(&mut t, &p).unwrap_err(), SetPosError::MissingNode);
}
