use aflak::dst::{DSTError, Input, InputIdx, InputList, Output, OutputId, OutputIdx, TransformIdx, DST};
use aflak::transform::{Transformation, Type, TypeContent};

fn constant() -> Transformation<&'static str> {
    Transformation { input: vec![], output: vec![Type::Integer], algorithm: "constant" }
}

fn plus_one() -> Transformation<&'static str> {
    Transformation { input: vec![Type::Integer], output: vec![Type::Integer], algorithm: "plus_one" }
}

fn out(t: TransformIdx, i: usize) -> Output {
    Output { t_idx: t, ouput_i: OutputIdx(i) }
}

fn inp(t: TransformIdx, i: usize) -> Input {
    Input { t_idx: t, input_i: InputIdx(i) }
}

#[test]
fn add_transform_numbers_from_one() {
    let a = constant();
    let b = plus_one();
    let mut dst: DST<&str, u64> = DST::new();
    assert_eq!(dst.add_transform(&a), TransformIdx(1));
    assert_eq!(dst.add_transform(&b), TransformIdx(2));
    assert_eq!(dst.transform_list().len(), 2);
}

#[test]
fn connect_and_duplicate_edge() {
    let a = constant();
    let b = plus_one();
    let mut dst: DST<&str, u64> = DST::new();
    let ia = dst.add_transform(&a);
    let ib = dst.add_transform(&b);
    assert!(dst.connect(out(ia, 0), inp(ib, 0)).is_ok());
    match dst.connect(out(ia, 0), inp(ib, 0)) {
        Err(DSTError::DuplicateEdge(m)) => assert_eq!(
            m,
            "There already is an edge connecting Output { t_idx: TransformIdx(1), ouput_i: OutputIdx(0) } to Input { t_idx: TransformIdx(2), input_i: InputIdx(0) }!"
        ),
        _ => panic!("expected a duplicate edge"),
    }
}

#[test]
fn connect_refuses_cycles() {
    let b = plus_one();
    let c = plus_one();
    let mut dst: DST<&str, u64> = DST::new();
    let ib = dst.add_transform(&b);
    let ic = dst.add_transform(&c);
    assert!(dst.connect(out(ib, 0), inp(ic, 0)).is_ok());
    match dst.connect(out(ic, 0), inp(ib, 0)) {
        Err(DSTError::Cycle(m)) => assert_eq!(
            m,
            "Connecting Output { t_idx: TransformIdx(2), ouput_i: OutputIdx(0) } to Input { t_idx: TransformIdx(1), input_i: InputIdx(0) } would create a cycle!"
        ),
        _ => panic!("expected a cycle"),
    }
    match dst.connect(out(ib, 0), inp(ib, 0)) {
        Err(DSTError::Cycle(_)) => {}
        _ => panic!("a self loop is a cycle"),
    }
}

#[test]
fn connect_checks_ends() {
    let a = constant();
    let b = plus_one();
    let mut dst: DST<&str, u64> = DST::new();
    let ia = dst.add_transform(&a);
    let ib = dst.add_transform(&b);
    match dst.connect(out(TransformIdx(9), 0), inp(ib, 0)) {
        Err(DSTError::InvalidOutput(m)) => assert_eq!(
            m,
            "Output { t_idx: TransformIdx(9), ouput_i: OutputIdx(0) } does not exist in this graph!"
        ),
        _ => panic!("expected an invalid output"),
    }
    match dst.connect(out(ia, 0), inp(ia, 0)) {
        Err(DSTError::InvalidInput(m)) => assert_eq!(
            m,
            "Input { t_idx: TransformIdx(1), input_i: InputIdx(0) } does not exist in this graph!"
        ),
        _ => panic!("expected an invalid input"),
    }
    match dst.connect(out(ia, 1), inp(ib, 0)) {
        Err(DSTError::InvalidOutput(_)) => {}
        _ => panic!("output 1 does not exist"),
    }
}

#[test]
fn attach_and_detach_outputs() {
    let a = constant();
    let mut dst: DST<&str, u64> = DST::new();
    let ia = dst.add_transform(&a);
    let id1 = match dst.attach_output(out(ia, 0)) {
        Ok(id) => id,
        Err(_) => panic!("output exists"),
    };
    assert_eq!(id1, OutputId(1));
    let id2 = match dst.attach_output(out(ia, 0)) {
        Ok(id) => id,
        Err(_) => panic!("output exists"),
    };
    assert_eq!(id2, OutputId(2));
    dst.detach_output(&id1);
    match dst.attach_output(out(ia, 3)) {
        Err(DSTError::InvalidOutput(_)) => {}
        _ => panic!("output 3 does not exist"),
    }
}

#[test]
fn input_list_push_and_contains() {
    let mut l: InputList<u64> = InputList::new(vec![]);
    let i = inp(TransformIdx(1), 0);
    assert!(!l.contains(&i));
    l.push(i);
    assert!(l.contains(&i));
    assert!(l.cache.is_none());
}

#[test]
fn indices_increment() {
    assert_eq!(TransformIdx(3).incr(), TransformIdx(4));
    assert_eq!(OutputId(0).incr(), OutputId(1));
    assert_eq!(usize::from(OutputIdx(5)), 5);
    assert_eq!(usize::from(InputIdx(2)), 2);
}

fn count_inputs(v: Vec<&TypeContent<&'static str>>) -> Vec<TypeContent<&'static str>> {
    let mut out = vec![TypeContent::Integer(v.len() as u64)];
    for x in v {
        if let TypeContent::Integer(n) = x {
            out.push(TypeContent::Integer(n + 1));
        }
    }
    out
}

#[test]
fn transformation_caller_feeds_in_order() {
    let t = Transformation { input: vec![Type::Integer, Type::Image2d], output: vec![], algorithm: count_inputs };
    assert!(t.check_input(1));
    assert!(!t.check_input(2));
    assert!(!t.check_output(0));
    let x: TypeContent<&str> = TypeContent::Integer(3);
    let y: TypeContent<&str> = TypeContent::Image2d("image");
    let mut caller = t.start();
    assert_eq!(caller.next_expected(), Some(Type::Integer));
    caller.feed(&x);
    assert_eq!(caller.next_expected(), Some(Type::Image2d));
    assert_eq!(y.get_type(), Type::Image2d);
    caller.feed(&y);
    assert_eq!(caller.next_expected(), None);
    let out = caller.call();
    assert_eq!(out, vec![TypeContent::Integer(2), TypeContent::Integer(4)]);
}
