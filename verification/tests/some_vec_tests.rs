use hashdeep_compare::some_vec::SomeVec;

#[test]
fn from_vec_and_len_test() {
    assert_eq!(SomeVec::<i32>::from_vec(vec![]), None);
    {
        let v = SomeVec::<i32>::from_vec(vec![1]).unwrap();
        assert_eq!(v.len(), 1);
        assert_eq!(*v.inner_ref(), vec![1]);
        assert_eq!(*v.first(), 1);
    }
    {
        let v = SomeVec::<i32>::from_vec(vec![1, 2, 3]).unwrap();
        assert_eq!(v.len(), 3);
        assert_eq!(*v.inner_ref(), vec![1, 2, 3]);
        assert_eq!(*v.first(), 1);
    }
}

#[test]
fn from_first_value_test() {
    {
        let v = SomeVec::<i32>::from_first_value(1);
        assert_eq!(v.len(), 1);
        assert_eq!(*v.inner_ref(), vec![1]);
        assert_eq!(*v.first(), 1);
    }
    {
        let v = SomeVec::<()>::from_first_value(());
        assert_eq!(v.len(), 1);
        assert_eq!(*v.inner_ref(), vec![()]);
        assert_eq!(*v.first(), ());
    }
    {
        let v = SomeVec::<String>::from_first_value("1".to_owned());
        assert_eq!(v.len(), 1);
        assert_eq!(*v.inner_ref(), vec!["1".to_owned()]);
        assert_eq!(*v.first(), "1".to_owned());
    }
}

#[test]
fn from_values_test() {
    {
        let v = SomeVec::<()>::from_values((), ());
        assert_eq!(v.len(), 2);
        assert_eq!(*v.inner_ref(), vec![(), ()]);
        assert_eq!(*v.first(), ());
    }
    {
        let v = SomeVec::<i32>::from_values(1, 2);
        assert_eq!(v.len(), 2);
        assert_eq!(*v.inner_ref(), vec![1, 2]);
        assert_eq!(*v.first(), 1);
    }
}

#[test]
fn at_test() {
    assert_eq!(*SomeVec::<i32>::from_vec(vec![1, 2, 3]).unwrap().at(1), 2);
    assert_eq!(*SomeVec::<String>::from_vec(vec!["1".to_owned()]).unwrap().at(0), "1");
}

#[test]
fn push_test() {
    let mut v = SomeVec::<String>::from_vec(vec!["1".to_owned()]).unwrap();
    assert_eq!(v.len(), 1);
    assert_eq!(*v.first(), "1".to_owned());
    assert_eq!(*v.at(0), "1");

    v.push("2".to_owned());
    assert_eq!(v.len(), 2);
    assert_eq!(*v.first(), "1".to_owned());
    assert_eq!(*v.at(0), "1");
    assert_eq!(*v.at(1), "2");
}

#[test]
fn sort_by_test() {
    {
        let mut v = SomeVec::<u32>::from_vec(vec![1]).unwrap();
        v.sort_by(|x, y| x.cmp(y));
        assert_eq!(v.inner_ref(), &vec![1]);
    }
    {
        let mut v = SomeVec::<u32>::from_vec(vec![2, 1]).unwrap();
        v.sort_by(|x, y| x.cmp(y));
        assert_eq!(v.inner_ref(), &vec![1, 2]);
    }
    {
        let mut v = SomeVec::<u32>::from_vec(vec![2, 3, 1]).unwrap();
        v.sort_by(|x, y| x.cmp(y));
        assert_eq!(v.inner_ref(), &vec![1, 2, 3]);
    }
}

#[test]
fn sort_by_stable_test() {
    // equal keys keep their relative order
    let mut v = SomeVec::<(u32, u32)>::from_vec(vec![(2, 0), (1, 0), (1, 1), (2, 1)]).unwrap();
    v.sort_by(|x, y| x.0.cmp(&y.0));
    assert_eq!(*v.inner_ref(), vec![(1, 0), (1, 1), (2, 0), (2, 1)]);
}
