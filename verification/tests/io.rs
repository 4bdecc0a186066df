use dos::io::{find, find_given};
use dos::{IOError, Tag, IO};

#[test]
fn find_first_value_of_a_name() {
    let data = vec![
        IO::with(Tag::OSSTruss6F, vec![1.0f64]),
        IO::with(Tag::OSSGIR6F, vec![2.0f64]),
        IO::with(Tag::OSSTruss6F, vec![3.0f64]),
    ];
    assert_eq!(find(&data, Tag::OSSTruss6F), Some(0));
    assert_eq!(find(&data, Tag::OSSGIR6F), Some(1));
    assert_eq!(find(&data, Tag::MountCmd), None);
}

#[test]
fn find_skips_values_that_carry_nothing() {
    let data: Vec<IO<Vec<f64>>> = vec![
        IO::new(Tag::OSSTruss6F),
        IO::with(Tag::OSSTruss6F, vec![3.0]),
    ];
    assert_eq!(find(&data, Tag::OSSTruss6F), Some(0));
    assert_eq!(find_given(&data, Tag::OSSTruss6F), Some(1));
    assert_eq!(find_given(&data, Tag::OSSGIR6F), None);
}

#[test]
fn a_fresh_value_carries_nothing() {
    let io: IO<Vec<f64>> = IO::new(Tag::M1HPCmd);
    assert_eq!(io.tag(), Tag::M1HPCmd);
    assert!(!io.is_some());
    assert_eq!(io.into_result(), Err(IOError::Missing(Tag::M1HPCmd)));
}

#[test]
fn a_value_gives_back_what_it_carries() {
    let io = IO::with(Tag::M1HPCmd, vec![1.5f64, 2.5]);
    assert!(io.is_some());
    assert!(io.same_tag(&IO::<usize>::new(Tag::M1HPCmd)));
    assert!(!io.same_tag(&IO::<usize>::new(Tag::M1HPLC)));
    assert_eq!(io.duplicate().into_option(), Some(vec![1.5, 2.5]));
    assert_eq!(io.into_result(), Ok(vec![1.5, 2.5]));
}

#[test]
fn a_size_is_assigned() {
    let mut io: IO<usize> = IO::new(Tag::OSSAzDriveTorque);
    io.assign(12);
    assert_eq!(io.tag(), Tag::OSSAzDriveTorque);
    assert_eq!(io.into_option(), Some(12));
}

#[test]
fn tags_are_distinct_where_none_stands_twice() {
    assert!(dos::tags::are_distinct(&vec![]));
    assert!(dos::tags::are_distinct(&vec![Tag::OSSGIR6F]));
    assert!(dos::tags::are_distinct(&vec![Tag::OSSGIR6F, Tag::OSSGIR6D, Tag::OSSTruss6F]));
    assert!(!dos::tags::are_distinct(&vec![Tag::OSSGIR6F, Tag::OSSGIR6D, Tag::OSSGIR6F]));
    assert!(!dos::tags::are_distinct(&vec![Tag::OSSGIR6D, Tag::OSSGIR6F, Tag::OSSGIR6F]));
}
