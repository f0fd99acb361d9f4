use restor::{ErrorDesc, Fetched, Guard, RwLockStorage, Shape};

fn guard_of<T>(mut fetched: Vec<Fetched<T>>) -> Guard {
    match fetched.remove(0) {
        Fetched::Ref(g) | Fetched::Mut(g) | Fetched::Slice(g) | Fetched::SliceMut(g) => g,
        _ => panic!("expected a guard"),
    }
}

#[test]
fn rwlock_instantiate() {
    let _ = RwLockStorage::<usize>::new();
}

#[test]
fn rwlock_register() {
    let mut x = RwLockStorage::<usize>::new();
    x.allocate_for(1);
}

#[test]
fn rwlock_register_multiple() {
    let mut x = RwLockStorage::<usize>::new();
    x.allocate_for(1);
    x.allocate_for(2);
}

#[test]
fn rwlock_register_repeated() {
    let mut x = RwLockStorage::<usize>::new();
    x.allocate_for(1);
    x.allocate_for(1);
}

#[test]
fn rwlock_insert() {
    let mut x = RwLockStorage::<usize>::new();
    x.allocate_for(1);
    x.insert(1, 0usize).unwrap();
}

#[test]
fn rwlock_insert_non_registered() {
    let mut x = RwLockStorage::<usize>::new();
    x.allocate_for(1);
    assert_eq!(x.insert(2, 0usize), Err((0usize, ErrorDesc::NoAllocatedUnit)));
}

#[test]
fn rwlock_borrow_twice_im() {
    let mut x = RwLockStorage::<usize>::new();
    x.allocate_for(1);
    x.insert(1, 0usize).unwrap();
    let y = x.get(&vec![Shape::Ref(1)]);
    let gy = guard_of(y.unwrap());
    let z = x.get(&vec![Shape::Ref(1)]);
    let gz = guard_of(z.unwrap());
    x.release(gy).unwrap();
    x.release(gz).unwrap();
}

#[test]
fn rwlock_borrow_twice_mut() {
    let mut x = RwLockStorage::<usize>::new();
    x.allocate_for(1);
    x.insert(1, 0usize).unwrap();
    let y = x.get(&vec![Shape::Mut(1)]);
    let gy = guard_of(y.unwrap());
    let z = x.get(&vec![Shape::Mut(1)]);
    if let Err(ErrorDesc::BorrowedIncompatibly) = z {
    } else {
        panic!();
    }
    assert_eq!(*x.read_one(&gy).unwrap(), 0usize);
    x.release(gy).unwrap();
}

#[test]
fn rwlock_ind() {
    let mut x = RwLockStorage::<usize>::new();
    x.allocate_for(1);
    x.insert(1, 0usize).unwrap();
    x.insert(1, 1usize).unwrap();
    let y = x.get(&vec![Shape::Slice(1)]);
    let gy = guard_of(y.unwrap());
    let indexed = x.get(&vec![Shape::Slice(1)]);
    let gi = guard_of(indexed.unwrap());
    assert_eq!(*x.read_at(&gi, 0).unwrap(), 0);
    assert_eq!(*x.read_at(&gy, 1).unwrap(), 1);
    x.release(gy).unwrap();
    x.release(gi).unwrap();
}

#[test]
fn rwlock_ind_many() {
    let mut x = RwLockStorage::<usize>::new();
    x.allocate_for(1);
    x.insert(1, 0usize).unwrap();
    x.insert(1, 1usize).unwrap();
    {
        let y = x.get(&vec![Shape::Slice(1)]);
        let g = guard_of(y.unwrap());
        assert_eq!(*x.read_at(&g, 0).unwrap(), 0);
        x.release(g).unwrap();
    }
    {
        let y = x.get(&vec![Shape::Slice(1)]);
        let g = guard_of(y.unwrap());
        assert_eq!(*x.read_at(&g, 1).unwrap(), 1);
        x.release(g).unwrap();
    }
    {
        let y = x.get(&vec![Shape::Slice(1)]);
        let gy = guard_of(y.unwrap());
        assert_eq!(*x.read_at(&gy, 0).unwrap(), 0);
        let z = x.get(&vec![Shape::Slice(1)]);
        let gz = guard_of(z.unwrap());
        assert_eq!(*x.read_at(&gz, 1).unwrap(), 1);
        x.release(gy).unwrap();
        x.release(gz).unwrap();
    }
}

#[test]
fn rwlock_ind_mut() {
    let mut x = RwLockStorage::<usize>::new();
    x.allocate_for(1);
    x.insert(1, 0usize).unwrap();
    x.insert(1, 1usize).unwrap();
    {
        let y = x.get(&vec![Shape::SliceMut(1)]);
        let g = guard_of(y.unwrap());
        assert_eq!(*x.read_at(&g, 0).unwrap(), 0);
        x.set_at(&g, 0, 10).unwrap();
        x.release(g).unwrap();
    }
    {
        let y = x.get(&vec![Shape::SliceMut(1)]);
        let g = guard_of(y.unwrap());
        assert_eq!(*x.read_at(&g, 1).unwrap(), 1);
        x.release(g).unwrap();
    }
    {
        let y = x.get(&vec![Shape::SliceMut(1)]);
        let gy = guard_of(y.unwrap());
        let z = x.get(&vec![Shape::SliceMut(1)]);
        if let Err(ErrorDesc::BorrowedIncompatibly) = z {
        } else {
            panic!();
        }
        assert_eq!(*x.read_at(&gy, 0).unwrap(), 10);
        x.release(gy).unwrap();
    }
}
