use restor::{Fetched, Guard, RwLockStorage, Shape};

fn guard_of<T>(f: Fetched<T>) -> Guard {
    match f {
        Fetched::Ref(g) | Fetched::Mut(g) | Fetched::Slice(g) | Fetched::SliceMut(g) => g,
        _ => panic!("expected a guard"),
    }
}

#[derive(Clone, Copy, Debug)]
struct GetOneType;

#[test]
fn get_one_type() {
    let mut storage = RwLockStorage::<GetOneType>::new();
    storage.allocate_for(1);
    storage.insert(1, GetOneType).unwrap();
    {
        let r = storage.get(&vec![Shape::Ref(1)]).unwrap();
        for f in r {
            storage.release(guard_of(f)).unwrap();
        }
    }
    {
        let r = storage.get(&vec![Shape::Mut(1)]).unwrap();
        for f in r {
            storage.release(guard_of(f)).unwrap();
        }
    }
    {
        storage.get(&vec![Shape::Own(1)]).unwrap();
    }
    storage.insert_many(1, vec![GetOneType; 20]).unwrap();
    {
        let r = storage.get(&vec![Shape::Slice(1)]).unwrap();
        for f in r {
            storage.release(guard_of(f)).unwrap();
        }
    }
    {
        let r = storage.get(&vec![Shape::SliceMut(1)]).unwrap();
        for f in r {
            storage.release(guard_of(f)).unwrap();
        }
    }
    {
        storage.get(&vec![Shape::OwnMany(1)]).unwrap();
    }
}

#[derive(Clone, Copy, Debug, PartialEq)]
enum ManyVal {
    Type0,
    Type1,
    Type2,
    Type3,
    Type4,
    Type5,
}

#[test]
fn get_many_types() {
    let mut storage = RwLockStorage::<ManyVal>::new();
    for k in 10..16u64 {
        storage.allocate_for(k);
    }
    storage.insert(10, ManyVal::Type0).unwrap();
    storage.insert(11, ManyVal::Type1).unwrap();
    storage.insert(12, ManyVal::Type2).unwrap();
    storage.insert_many(13, vec![ManyVal::Type3; 10]).unwrap();
    storage.insert_many(14, vec![ManyVal::Type4; 10]).unwrap();
    storage.insert_many(15, vec![ManyVal::Type5; 10]).unwrap();

    let fetched = storage
        .get(
            &vec![
                Shape::Ref(10),
                Shape::Mut(11),
                Shape::Own(12),
                Shape::Slice(13),
                Shape::SliceMut(14),
                Shape::OwnMany(15),
            ],
        )
        .unwrap();
    assert_eq!(fetched.len(), 6);
    for f in fetched {
        match f {
            Fetched::Ref(g)
            | Fetched::Mut(g)
            | Fetched::Slice(g)
            | Fetched::SliceMut(g) => {
                storage.release(g).unwrap();
            },
            Fetched::Own(v) => assert_eq!(v, ManyVal::Type2),
            Fetched::OwnMany(vs) => assert_eq!(vs, vec![ManyVal::Type5; 10]),
        }
    }
}
