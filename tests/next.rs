use next::compose::Sum;
use next::Next;

#[test]
fn next_struct() {
    // A record with one field of the unit type.
    assert_eq!(<((),) as Next>::first(), ((),));
    assert_eq!(((),).next(), None);
}

// Alternatives declared as `C { first: i8, second: u8 } = 2, A = 0, B(bool)`,
// nested in ascending discriminant order: A, then B, then C.
type Foo = Sum<(), Sum<(bool,), (i8, u8)>>;

#[test]
fn next_enum_in_discriminant_order() {
    let a: Foo = Sum::First(());
    let b_false: Foo = Sum::Rest(Sum::First((false,)));
    let b_true: Foo = Sum::Rest(Sum::First((true,)));
    assert_eq!(Foo::first(), a);
    assert_eq!(a.next(), Some(b_false));
    assert_eq!(b_false.next(), Some(b_true));
    assert_eq!(b_true.next(), Some(Sum::Rest(Sum::Rest((i8::MIN, 0)))));
    assert_eq!(
        Sum::<(), Sum<(bool,), (i8, u8)>>::Rest(Sum::Rest((i8::MIN, 0))).next(),
        Some(Sum::Rest(Sum::Rest((i8::MIN, 1))))
    );
    assert_eq!(
        Sum::<(), Sum<(bool,), (i8, u8)>>::Rest(Sum::Rest((i8::MIN, u8::MAX))).next(),
        Some(Sum::Rest(Sum::Rest((i8::MIN + 1, 0))))
    );
    assert_eq!(
        Sum::<(), Sum<(bool,), (i8, u8)>>::Rest(Sum::Rest((i8::MAX, u8::MAX))).next(),
        None
    );
}

#[test]
fn unit_has_one_value() {
    assert_eq!(<() as Next>::first(), ());
    assert_eq!(().next(), None);
}

#[test]
fn bool_sequence() {
    assert_eq!(<bool as Next>::first(), false);
    assert_eq!(false.next(), Some(true));
    assert_eq!(true.next(), None);
}

#[test]
fn u8_visits_every_value_once() {
    let mut v = <u8 as Next>::first();
    let mut seen: Vec<u8> = Vec::new();
    loop {
        seen.push(v);
        match v.next() {
            Some(w) => v = w,
            None => break,
        }
    }
    assert_eq!(seen.len(), 256);
    for (k, x) in seen.iter().enumerate() {
        assert_eq!(*x as usize, k);
    }
}

#[test]
fn i8_visits_every_value_once() {
    let mut v = <i8 as Next>::first();
    let mut steps: i32 = 0;
    assert_eq!(v, -128);
    while let Some(w) = v.next() {
        assert_eq!(w as i32, v as i32 + 1);
        v = w;
        steps += 1;
    }
    assert_eq!(steps, 255);
    assert_eq!(v, i8::MAX);
}

#[test]
fn integer_bounds() {
    assert_eq!(<u16 as Next>::first(), 0);
    assert_eq!(u16::MAX.next(), None);
    assert_eq!(<u32 as Next>::first(), 0);
    assert_eq!(41u32.next(), Some(42));
    assert_eq!(u64::MAX.next(), None);
    assert_eq!(<u128 as Next>::first(), 0);
    assert_eq!((u128::MAX - 1).next(), Some(u128::MAX));
    assert_eq!(u128::MAX.next(), None);
    assert_eq!(usize::MAX.next(), None);
    assert_eq!(<i16 as Next>::first(), i16::MIN);
    assert_eq!((-1i16).next(), Some(0));
    assert_eq!(<i32 as Next>::first(), i32::MIN);
    assert_eq!(i32::MAX.next(), None);
    assert_eq!(<i64 as Next>::first(), i64::MIN);
    assert_eq!(i64::MAX.next(), None);
    assert_eq!(<i128 as Next>::first(), i128::MIN);
    assert_eq!(i128::MAX.next(), None);
    assert_eq!(<isize as Next>::first(), isize::MIN);
    assert_eq!(isize::MAX.next(), None);
}

#[test]
fn pair_carries_into_first_field() {
    let mut v = <(u8, u8) as Next>::first();
    assert_eq!(v, (0, 0));
    for k in 1..=255u32 {
        v = v.next().unwrap();
        assert_eq!(v, (0, k as u8));
    }
    assert_eq!(v.next(), Some((1, 0)));
    assert_eq!((u8::MAX, u8::MAX).next(), None);
}

#[test]
fn pair_advance_leaves_first_field() {
    assert_eq!((true, 7u8).next(), Some((true, 8)));
    assert_eq!((false, u8::MAX).next(), Some((true, 0)));
    assert_eq!((true, u8::MAX).next(), None);
}

#[test]
fn triple_and_quadruple_carry() {
    assert_eq!(<(bool, bool, bool) as Next>::first(), (false, false, false));
    assert_eq!((false, true, true).next(), Some((true, false, false)));
    assert_eq!((true, true, true).next(), None);
    assert_eq!(
        <(bool, u8, (), i8) as Next>::first(),
        (false, 0, (), i8::MIN)
    );
    assert_eq!((false, u8::MAX, (), i8::MAX).next(), Some((true, 0, (), i8::MIN)));
    assert_eq!((true, u8::MAX, (), i8::MAX).next(), None);
    assert_eq!((false, 3u8, (), 5i8).next(), Some((false, 3, (), 6)));
}

#[test]
fn empty_record_has_no_successor() {
    let v = <() as Next>::first();
    assert_eq!(v, ());
    assert_eq!(v.next(), None);
    assert_eq!(<((), ()) as Next>::first(), ((), ()));
    assert_eq!(((), ()).next(), None);
}

#[test]
fn next_is_deterministic() {
    let v: (u8, bool) = (9, true);
    let first = v.next();
    let second = v.next();
    assert_eq!(first, second);
    assert_eq!(first, Some((10, false)));
    assert_eq!(v, (9, true));
    let s: Sum<bool, u8> = Sum::First(true);
    assert_eq!(s.next(), s.next());
    assert_eq!(s.next(), Some(Sum::Rest(0)));
}

#[test]
fn counting_all_values_of_a_sum() {
    let mut v = <Sum<bool, (bool, bool)> as Next>::first();
    let mut n: u32 = 1;
    while let Some(w) = v.next() {
        v = w;
        n += 1;
    }
    assert_eq!(n, 6);
    assert_eq!(v, Sum::Rest((true, true)));
}
