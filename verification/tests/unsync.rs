use restor::{DynamicStorage, ErrorDesc, Fetched, Guard, Shape};

fn guard_of<T>(mut fetched: Vec<Fetched<T>>) -> Guard {
    match fetched.remove(0) {
        Fetched::Ref(g) | Fetched::Mut(g) | Fetched::Slice(g) | Fetched::SliceMut(g) => g,
        _ => panic!("expected a guard"),
    }
}

#[test]
fn unsync_instantiate() {
    let _ = DynamicStorage::<usize>::new();
}

#[test]
fn unsync_register() {
    let mut x = DynamicStorage::<usize>::new();
    x.allocate_for(1);
}

#[test]
fn unsync_register_multiple() {
    let mut x = DynamicStorage::<usize>::new();
    x.allocate_for(1);
    x.allocate_for(2);
}

#[test]
fn unsync_register_repeated() {
    let mut x = DynamicStorage::<usize>::new();
    x.allocate_for(1);
    x.allocate_for(1);
}

#[test]
fn unsync_insert() {
    let mut x = DynamicStorage::<usize>::new();
    x.allocate_for(1);
    x.insert(1, 0usize).unwrap();
}

#[test]
fn unsync_insert_non_registered() {
    let mut x = DynamicStorage::<usize>::new();
    x.allocate_for(1);
    assert_eq!(x.insert(2, 0usize), Err((0usize, ErrorDesc::NoAllocatedUnit)));
}

#[test]
fn unsync_borrow_twice_im() {
    let mut x = DynamicStorage::<usize>::new();
    x.allocate_for(1);
    x.insert(1, 0usize).unwrap();
    let y = x.get(&vec![Shape::Ref(1)]);
    assert!(y.is_ok());
    let z = x.get(&vec![Shape::Ref(1)]);
    assert!(z.is_ok());
    x.release(guard_of(y.unwrap())).unwrap();
    x.release(guard_of(z.unwrap())).unwrap();
}

#[test]
fn unsync_borrow_twice_mut() {
    let mut x = DynamicStorage::<usize>::new();
    x.allocate_for(1);
    x.insert(1, 0usize).unwrap();
    let y = x.get(&vec![Shape::Mut(1)]);
    assert!(y.is_ok());
    let z = x.get(&vec![Shape::Mut(1)]);
    if let Err(ErrorDesc::BorrowedIncompatibly) = z {
    } else {
        panic!();
    }
}

#[test]
fn unsync_ind() {
    let mut x = DynamicStorage::<usize>::new();
    x.allocate_for(1);
    x.insert(1, 0usize).unwrap();
    x.insert(1, 1usize).unwrap();
    let y = x.get(&vec![Shape::Slice(1)]);
    let g = guard_of(y.unwrap());
    assert_eq!(*x.read_at(&g, 0).unwrap(), 0);
}

#[test]
fn unsync_ind_many() {
    let mut x = DynamicStorage::<usize>::new();
    x.allocate_for(1);
    x.insert(1, 0usize).unwrap();
    x.insert(1, 1usize).unwrap();
    {
        let y = x.get(&vec![Shape::Slice(1)]);
        let g = guard_of(y.unwrap());
        assert_eq!(*x.read_at(&g, 0).unwrap(), 0);
        x.release(g).unwrap();
    }
    {
        let y = x.get(&vec![Shape::Slice(1)]);
        let g = guard_of(y.unwrap());
        assert_eq!(*x.read_at(&g, 1).unwrap(), 1);
        x.release(g).unwrap();
    }
    {
        let y = x.get(&vec![Shape::Slice(1)]);
        let gy = guard_of(y.unwrap());
        assert_eq!(*x.read_at(&gy, 0).unwrap(), 0);
        let z = x.get(&vec![Shape::Slice(1)]);
        let gz = guard_of(z.unwrap());
        assert_eq!(*x.read_at(&gz, 1).unwrap(), 1);
        x.release(gy).unwrap();
        x.release(gz).unwrap();
    }
}

#[test]
fn unsync_ind_mut() {
    let mut x = DynamicStorage::<usize>::new();
    x.allocate_for(1);
    x.insert(1, 0usize).unwrap();
    x.insert(1, 1usize).unwrap();
    {
        let y = x.get(&vec![Shape::SliceMut(1)]);
        let g = guard_of(y.unwrap());
        assert_eq!(*x.read_at(&g, 0).unwrap(), 0);
        x.set_at(&g, 0, 10).unwrap();
        x.release(g).unwrap();
    }
    {
        let y = x.get(&vec![Shape::SliceMut(1)]);
        let g = guard_of(y.unwrap());
        assert_eq!(*x.read_at(&g, 1).unwrap(), 1);
        x.release(g).unwrap();
    }
    {
        let y = x.get(&vec![Shape::SliceMut(1)]);
        let gy = guard_of(y.unwrap());
        let z = x.get(&vec![Shape::SliceMut(1)]);
        if let Err(ErrorDesc::BorrowedIncompatibly) = z {
        } else {
            panic!();
        }
        assert_eq!(*x.read_at(&gy, 0).unwrap(), 10);
        x.release(gy).unwrap();
    }
}
