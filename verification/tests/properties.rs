use restor::{
    DynamicStorage, ErrorDesc, Fetched, Guard, Keyed, MutexStorage, Payload, RefCellUnit,
    RwLockStorage, Shape, StorageUnit, UnitError,
};

fn guard_of<T>(mut fetched: Vec<Fetched<T>>) -> Guard {
    match fetched.remove(0) {
        Fetched::Ref(g) | Fetched::Mut(g) | Fetched::Slice(g) | Fetched::SliceMut(g) => g,
        _ => panic!("expected a guard"),
    }
}

fn owned_of<T>(mut fetched: Vec<Fetched<T>>) -> Vec<T> {
    match fetched.remove(0) {
        Fetched::OwnMany(v) => v,
        Fetched::Own(x) => vec![x],
        _ => panic!("expected owned values"),
    }
}

#[test]
fn error_combination() {
    let a = ErrorDesc::Unit(UnitError::OutOfBounds);
    let b = ErrorDesc::BorrowedIncompatibly;
    assert_eq!(
        a.combine(b),
        ErrorDesc::Two(Box::new((
            ErrorDesc::Unit(UnitError::OutOfBounds),
            ErrorDesc::BorrowedIncompatibly
        )))
    );
    let a = ErrorDesc::Unit(UnitError::IsNotMany);
    let b = ErrorDesc::Unit(UnitError::IsNotOne);
    assert_eq!(a.combine(b), ErrorDesc::Unit(UnitError::IsNope));
}

#[test]
fn insert_order_is_kept() {
    let mut x = DynamicStorage::<i32>::new();
    x.allocate_for(1);
    x.insert(1, 1).unwrap();
    x.insert_many(1, vec![2, 3]).unwrap();
    x.insert(1, 4).unwrap();
    let all = owned_of(x.get(&vec![Shape::OwnMany(1)]).unwrap());
    assert_eq!(all, vec![1, 2, 3, 4]);
}

#[test]
fn one_iff_single_many_iff_two() {
    let mut x = DynamicStorage::<i32>::new();
    x.allocate_for(1);
    x.insert(1, 5).unwrap();
    let y = x.get(&vec![Shape::Ref(1)]).unwrap();
    let g = guard_of(y);
    assert_eq!(*x.read_one(&g).unwrap(), 5);
    x.release(g).unwrap();
    assert_eq!(x.run_for(1, |v: &Vec<i32>| v.len()), Err(ErrorDesc::Unit(UnitError::IsNotMany)));
    x.insert(1, 6).unwrap();
    assert_eq!(x.run_for(1, |v: &Vec<i32>| v.len()), Ok(2));
    let y = x.get(&vec![Shape::Ref(1)]);
    assert_eq!(y.err(), Some(ErrorDesc::Unit(UnitError::IsNotOne)));
}

#[test]
fn index_zero_single_value_fallback() {
    let mut x = DynamicStorage::<i32>::new();
    x.allocate_for(1);
    x.insert(1, 9).unwrap();
    let g = guard_of(x.get(&vec![Shape::Slice(1)]).unwrap());
    assert_eq!(x.guarded_len(&g), Ok(1));
    assert_eq!(*x.read_at(&g, 0).unwrap(), 9);
    assert_eq!(x.read_at(&g, 1).err(), Some(ErrorDesc::Unit(UnitError::OutOfBounds)));
    x.release(g).unwrap();
}

#[test]
fn extract_one_empties() {
    let mut x = DynamicStorage::<i32>::new();
    x.allocate_for(1);
    x.insert(1, 5).unwrap();
    assert_eq!(x.extract(1), Ok(5));
    assert_eq!(x.get(&vec![Shape::Ref(1)]).err(), Some(ErrorDesc::Unit(UnitError::IsNotOne)));
    assert_eq!(
        x.get(&vec![Shape::OwnMany(1)]).err(),
        Some(ErrorDesc::Unit(UnitError::IsNotMany))
    );
    assert_eq!(x.extract(1), Err(ErrorDesc::Unit(UnitError::IsNotOne)));
}

#[test]
fn batch_down_to_one_rearranges() {
    let mut x = DynamicStorage::<i32>::new();
    x.allocate_for(1);
    x.insert_many(1, vec![7, 8, 9]).unwrap();
    let removed = x
        .run_for_mut(1, |mut v: Vec<i32>| {
            let rest = v.split_off(1);
            (v, rest)
        })
        .unwrap();
    assert_eq!(removed, vec![8, 9]);
    let g = guard_of(x.get(&vec![Shape::Ref(1)]).unwrap());
    assert_eq!(*x.read_one(&g).unwrap(), 7);
    x.release(g).unwrap();
}

#[test]
fn exclusive_conflicts_immediately() {
    let mut x = MutexStorage::<i32>::new();
    x.allocate_for(1);
    x.insert(1, 3).unwrap();
    let g = guard_of(x.get(&vec![Shape::Mut(1)]).unwrap());
    assert_eq!(x.get(&vec![Shape::Mut(1)]).err(), Some(ErrorDesc::BorrowedIncompatibly));
    assert_eq!(x.insert(1, 4), Err((4, ErrorDesc::BorrowedIncompatibly)));
    x.release(g).unwrap();
    let g = guard_of(x.get(&vec![Shape::Mut(1)]).unwrap());
    x.release(g).unwrap();
}

#[test]
fn insert_unallocated_returns_value() {
    let mut x = DynamicStorage::<String>::new();
    let value = String::from("kept");
    match x.insert(1, value) {
        Err((v, ErrorDesc::NoAllocatedUnit)) => assert_eq!(v, "kept"),
        _ => panic!("expected the value back with the allocation error"),
    }
    let mut y = RwLockStorage::<i32>::new();
    assert_eq!(y.insert_many(2, vec![1, 2]), Err((vec![1, 2], ErrorDesc::NoAllocatedUnit)));
}

#[test]
fn extract_at_then_one() {
    let mut x = DynamicStorage::<i32>::new();
    x.allocate_for(1);
    x.insert(1, 5).unwrap();
    x.insert(1, 7).unwrap();
    {
        let g = guard_of(x.get(&vec![Shape::Slice(1)]).unwrap());
        assert_eq!(x.guarded_len(&g), Ok(2));
        assert_eq!(*x.read_at(&g, 0).unwrap(), 5);
        assert_eq!(*x.read_at(&g, 1).unwrap(), 7);
        x.release(g).unwrap();
    }
    assert_eq!(x.extract_at(1, 0), Ok(5));
    {
        let g = guard_of(x.get(&vec![Shape::Slice(1)]).unwrap());
        assert_eq!(x.guarded_len(&g), Ok(1));
        assert_eq!(*x.read_at(&g, 0).unwrap(), 7);
        x.release(g).unwrap();
    }
    let g = guard_of(x.get(&vec![Shape::Ref(1)]).unwrap());
    assert_eq!(*x.read_one(&g).unwrap(), 7);
    x.release(g).unwrap();
}

#[test]
fn shared_readers_then_writer() {
    let mut x = RwLockStorage::<i32>::new();
    x.allocate_for(1);
    x.insert(1, 3).unwrap();
    let g1 = guard_of(x.get(&vec![Shape::Ref(1)]).unwrap());
    let g2 = guard_of(x.get(&vec![Shape::Ref(1)]).unwrap());
    assert_eq!(*x.read_one(&g1).unwrap(), 3);
    assert_eq!(*x.read_one(&g2).unwrap(), 3);
    assert_eq!(x.get(&vec![Shape::Mut(1)]).err(), Some(ErrorDesc::BorrowedIncompatibly));
    x.release(g1).unwrap();
    assert_eq!(x.get(&vec![Shape::Mut(1)]).err(), Some(ErrorDesc::BorrowedIncompatibly));
    x.release(g2).unwrap();
    let g = guard_of(x.get(&vec![Shape::Mut(1)]).unwrap());
    x.release(g).unwrap();
}

#[test]
fn waiting_insert() {
    let mut x = RwLockStorage::<usize>::new();
    x.allocate_for(1);
    x.black_box.waiting_insert(1, 0usize).unwrap();
    x.black_box.waiting_insert_many(1, vec![1usize, 2, 3, 4]).unwrap();
    let all = owned_of(x.get(&vec![Shape::OwnMany(1)]).unwrap());
    assert_eq!(all, vec![0usize, 1, 2, 3, 4]);
}

#[test]
fn waiting_get_resolves() {
    let mut x = RwLockStorage::<i32>::new();
    x.allocate_for(1);
    x.allocate_for(2);
    x.insert(1, 10).unwrap();
    x.insert(2, 20).unwrap();
    let fetched = x.waiting_get(&vec![Shape::Ref(1), Shape::Ref(2)]).unwrap();
    assert_eq!(fetched.len(), 2);
    for f in fetched {
        x.release(guard_of(vec![f])).unwrap();
    }
    assert_eq!(
        x.waiting_get(&vec![Shape::Ref(3)]).err(),
        Some(ErrorDesc::NoAllocatedUnit)
    );
}

#[test]
fn tuple_resolution_stops_at_first_failure() {
    let mut x = DynamicStorage::<i32>::new();
    x.allocate_for(1);
    x.allocate_for(2);
    x.insert(1, 10).unwrap();
    let r = x.get(&vec![Shape::Ref(1), Shape::Ref(2), Shape::Ref(3)]);
    assert_eq!(r.err(), Some(ErrorDesc::Unit(UnitError::IsNotOne)));
    let r = x.get(&vec![Shape::Ref(1), Shape::Ref(3), Shape::Ref(2)]);
    assert_eq!(r.err(), Some(ErrorDesc::NoAllocatedUnit));
    let g = guard_of(x.get(&vec![Shape::Ref(1)]).unwrap());
    assert_eq!(*x.read_one(&g).unwrap(), 10);
    x.release(g).unwrap();
}

#[test]
fn run_for_reads_whole_list() {
    let mut x = DynamicStorage::<usize>::new();
    x.allocate_for(1);
    x.insert_many(1, vec![1usize, 2, 4, 8, 16, 32, 64, 128]).unwrap();
    let total = x.run_for(1, |v: &Vec<usize>| v.iter().sum::<usize>()).unwrap();
    assert_eq!(total, 0b11111111);
    assert_eq!(
        x.run_for(2, |v: &Vec<usize>| v.len()),
        Err(ErrorDesc::NoAllocatedUnit)
    );
}

#[test]
fn set_at_out_of_bounds_returns_value() {
    let mut x = DynamicStorage::<i32>::new();
    x.allocate_for(1);
    x.insert_many(1, vec![1, 2]).unwrap();
    let g = guard_of(x.get(&vec![Shape::SliceMut(1)]).unwrap());
    assert_eq!(x.set_at(&g, 5, 9), Err((9, ErrorDesc::Unit(UnitError::OutOfBounds))));
    x.release(g).unwrap();
}

#[test]
fn slice_of_nothing_is_nope() {
    let mut x = DynamicStorage::<i32>::new();
    x.allocate_for(1);
    assert_eq!(x.get(&vec![Shape::Slice(1)]).err(), Some(ErrorDesc::Unit(UnitError::IsNope)));
}

#[test]
fn kind_mismatch_hands_value_back() {
    let mut cell = RefCellUnit::new(StorageUnit::<i32>::new());
    let keyed = Keyed { key: 2, payload: Payload::Single(5) };
    match cell.insert_any(1, keyed) {
        Some((v, ErrorDesc::NoMatchingType)) => {
            assert_eq!(v.key, 2);
            match v.payload {
                Payload::Single(x) => assert_eq!(x, 5),
                _ => panic!("payload changed"),
            }
        },
        _ => panic!("expected the kind mismatch"),
    }
}

#[test]
fn waiting_batch_runs() {
    let mut x = RwLockStorage::<i32>::new();
    x.allocate_for(1);
    x.insert_many(1, vec![2, 4, 6]).unwrap();
    let total = x.black_box.waiting_run_for(1, |v: &Vec<i32>| v.iter().sum::<i32>()).unwrap();
    assert_eq!(total, 12);
    let doubled = x
        .black_box
        .waiting_run_for_mut(1, |v: Vec<i32>| {
            let out: Vec<i32> = v.iter().map(|n| n * 2).collect();
            (out, ())
        })
        .unwrap();
    assert_eq!(doubled, ());
    let all = owned_of(x.get(&vec![Shape::OwnMany(1)]).unwrap());
    assert_eq!(all, vec![4, 8, 12]);
}
