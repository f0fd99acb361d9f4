use restor::{ErrorDesc, Fetched, Guard, MutexStorage, Shape};

fn guard_of<T>(mut fetched: Vec<Fetched<T>>) -> Guard {
    match fetched.remove(0) {
        Fetched::Ref(g) | Fetched::Mut(g) | Fetched::Slice(g) | Fetched::SliceMut(g) => g,
        _ => panic!("expected a guard"),
    }
}

#[test]
fn mutex_instantiate() {
    let _ = MutexStorage::<usize>::new();
}

#[test]
fn mutex_register() {
    let mut x = MutexStorage::<usize>::new();
    x.allocate_for(1);
}

#[test]
fn mutex_register_multiple() {
    let mut x = MutexStorage::<usize>::new();
    x.allocate_for(1);
    x.allocate_for(2);
}

#[test]
fn mutex_register_repeated() {
    let mut x = MutexStorage::<usize>::new();
    x.allocate_for(1);
    x.allocate_for(1);
}

#[test]
fn mutex_insert() {
    let mut x = MutexStorage::<usize>::new();
    x.allocate_for(1);
    x.insert(1, 0usize).unwrap();
}

#[test]
fn mutex_insert_non_registered() {
    let mut x = MutexStorage::<usize>::new();
    x.allocate_for(1);
    assert_eq!(x.insert(2, 0usize), Err((0usize, ErrorDesc::NoAllocatedUnit)));
}

#[test]
fn mutex_borrow_twice_mut() {
    let mut x = MutexStorage::<usize>::new();
    x.allocate_for(1);
    x.insert(1, 0usize).unwrap();
    let y = x.get(&vec![Shape::Mut(1)]);
    assert!(y.is_ok());
    let z = x.get(&vec![Shape::Mut(1)]);
    if let Err(ErrorDesc::BorrowedIncompatibly) = z {
    } else {
        panic!();
    }
}

#[test]
fn slice_mut() {
    let mut x = MutexStorage::<usize>::new();
    x.allocate_for(1);
    x.insert(1, 0usize).unwrap();
    x.insert(1, 1usize).unwrap();
    {
        let y = x.get(&vec![Shape::SliceMut(1)]);
        let g = guard_of(y.unwrap());
        assert_eq!(*x.read_at(&g, 0).unwrap(), 0usize);
        x.set_at(&g, 0, 10).unwrap();
        x.release(g).unwrap();
    }
    {
        let y = x.get(&vec![Shape::SliceMut(1)]);
        let g = guard_of(y.unwrap());
        assert_eq!(*x.read_at(&g, 1).unwrap(), 1usize);
        x.release(g).unwrap();
    }
    {
        let y = x.get(&vec![Shape::SliceMut(1)]);
        let gy = guard_of(y.unwrap());
        let z = x.get(&vec![Shape::SliceMut(1)]);
        if let Err(ErrorDesc::BorrowedIncompatibly) = z {
        } else {
            panic!();
        }
        assert_eq!(*x.read_at(&gy, 0).unwrap(), 10usize);
        x.release(gy).unwrap();
    }
}
