use react::ArithFunc;
use react::CallbackID;
use react::CellID;
use react::ComputeCellID;
use react::Reactor;
use react::RemoveCallbackError;
use react::ValueLog;

fn new_reactor() -> Reactor<i64, ArithFunc, ValueLog<i64>> {
    Reactor::new()
}

fn log_of(
    r: &Reactor<i64, ArithFunc, ValueLog<i64>>,
    cell: ComputeCellID,
    cb: CallbackID,
) -> Vec<i64> {
    r.get_callback(cell, cb).expect("registration should exist").values().clone()
}

#[test]
fn input_cells_hold_their_value() {
    let mut r = new_reactor();
    let a = r.create_input(10);
    assert_eq!(r.value(CellID::Input(a)), Some(10));
    assert!(r.set_value(a, 20));
    assert_eq!(r.value(CellID::Input(a)), Some(20));
}

#[test]
fn value_of_nonexistent_cell_is_none() {
    let r = new_reactor();
    let mut other = new_reactor();
    let a = other.create_input(1);
    assert_eq!(r.value(CellID::Input(a)), None);
}

#[test]
fn value_treats_a_wrong_kind_identifier_as_nonexistent() {
    let mut r = new_reactor();
    let a = r.create_input(7);
    let mut other = new_reactor();
    let oc = other
        .create_compute(&[], ArithFunc::Const(0))
        .expect("no dependencies required");
    assert_eq!(CellID::Compute(oc).get_id(), CellID::Input(a).get_id());
    assert_eq!(r.value(CellID::Compute(oc)), None);
    assert_eq!(r.value(CellID::Input(a)), Some(7));

    let mut r2 = new_reactor();
    let c = r2
        .create_compute(&[], ArithFunc::Const(5))
        .expect("no dependencies required");
    let mut other2 = new_reactor();
    let forged = other2.create_input(1);
    assert_eq!(CellID::Input(forged).get_id(), CellID::Compute(c).get_id());
    assert_eq!(r2.value(CellID::Input(forged)), None);
    assert_eq!(r2.value(CellID::Compute(c)), Some(5));
}

#[test]
fn single_compute_cell_follows_its_input() {
    let mut r = new_reactor();
    let a = r.create_input(1);
    let b = r
        .create_compute(&[CellID::Input(a)], ArithFunc::AddConst(1))
        .expect("dependency exists");
    assert_eq!(r.value(CellID::Compute(b)), Some(2));
    assert!(r.set_value(a, 2));
    assert_eq!(r.value(CellID::Compute(b)), Some(3));
}

#[test]
fn compute_cells_chain_transitively() {
    let mut r = new_reactor();
    let a = r.create_input(1);
    let b = r
        .create_compute(&[CellID::Input(a)], ArithFunc::AddConst(1))
        .expect("dependency exists");
    let c = r
        .create_compute(&[CellID::Compute(b)], ArithFunc::AddConst(10))
        .expect("dependency exists");
    assert_eq!(r.value(CellID::Compute(c)), Some(12));
    assert!(r.set_value(a, 5));
    assert_eq!(r.value(CellID::Compute(c)), Some(16));
}

#[test]
fn sum_of_several_dependencies() {
    let mut r = new_reactor();
    let a = r.create_input(1);
    let b = r.create_input(2);
    let c = r.create_input(3);
    let s = r
        .create_compute(
            &[CellID::Input(a), CellID::Input(b), CellID::Input(c)],
            ArithFunc::Sum,
        )
        .expect("dependencies exist");
    assert_eq!(r.value(CellID::Compute(s)), Some(6));
    assert!(r.set_value(b, 20));
    assert_eq!(r.value(CellID::Compute(s)), Some(24));
}

#[test]
fn addition_wraps_at_the_edge_of_the_value_range() {
    let mut r = new_reactor();
    let a = r.create_input(i64::MAX);
    let b = r
        .create_compute(&[CellID::Input(a)], ArithFunc::AddConst(1))
        .expect("dependency exists");
    assert_eq!(r.value(CellID::Compute(b)), Some(i64::MIN));
}

#[test]
fn diamond_fires_callback_exactly_once_with_final_value() {
    let mut r = new_reactor();
    let a = r.create_input(1);
    let b = r
        .create_compute(&[CellID::Input(a)], ArithFunc::AddConst(1))
        .expect("dependency exists");
    let c = r
        .create_compute(&[CellID::Input(a)], ArithFunc::AddConst(2))
        .expect("dependency exists");
    let d = r
        .create_compute(&[CellID::Compute(b), CellID::Compute(c)], ArithFunc::Sum)
        .expect("dependencies exist");
    assert_eq!(r.value(CellID::Compute(d)), Some(5));
    let cb = r.add_callback(d, ValueLog::new()).expect("cell exists");
    assert!(r.set_value(a, 2));
    assert_eq!(r.value(CellID::Compute(b)), Some(3));
    assert_eq!(r.value(CellID::Compute(c)), Some(4));
    assert_eq!(r.value(CellID::Compute(d)), Some(7));
    assert_eq!(log_of(&r, d, cb), vec![7]);
}

#[test]
fn no_fire_when_the_value_does_not_change() {
    let mut r = new_reactor();
    let a = r.create_input(1);
    let e = r
        .create_compute(&[CellID::Input(a)], ArithFunc::MulConst(0))
        .expect("dependency exists");
    let cb = r.add_callback(e, ValueLog::new()).expect("cell exists");
    assert!(r.set_value(a, 5));
    assert!(r.set_value(a, -3));
    assert_eq!(r.value(CellID::Compute(e)), Some(0));
    assert_eq!(log_of(&r, e, cb), Vec::<i64>::new());
}

#[test]
fn callback_fires_once_per_write_that_changes_the_value() {
    let mut r = new_reactor();
    let a = r.create_input(1);
    let b = r
        .create_compute(&[CellID::Input(a)], ArithFunc::AddConst(1))
        .expect("dependency exists");
    let cb = r.add_callback(b, ValueLog::new()).expect("cell exists");
    assert!(r.set_value(a, 2));
    assert!(r.set_value(a, 2));
    assert!(r.set_value(a, 7));
    assert_eq!(log_of(&r, b, cb), vec![3, 8]);
}

#[test]
fn removed_callback_is_never_invoked_again() {
    let mut r = new_reactor();
    let a = r.create_input(1);
    let b = r
        .create_compute(&[CellID::Input(a)], ArithFunc::AddConst(1))
        .expect("dependency exists");
    let cb1 = r.add_callback(b, ValueLog::new()).expect("cell exists");
    let cb2 = r.add_callback(b, ValueLog::new()).expect("cell exists");
    assert_eq!(r.remove_callback(b, cb1), Ok(()));
    assert!(r.set_value(a, 2));
    assert!(r.get_callback(b, cb1).is_none());
    assert_eq!(log_of(&r, b, cb2), vec![3]);
    assert_eq!(
        r.remove_callback(b, cb1),
        Err(RemoveCallbackError::NonexistentCallback)
    );
}

#[test]
fn remove_callback_reports_a_nonexistent_cell() {
    let mut r = new_reactor();
    let mut other = new_reactor();
    let oa = other.create_input(1);
    let ob = other
        .create_compute(&[CellID::Input(oa)], ArithFunc::AddConst(1))
        .expect("dependency exists");
    let cb = other.add_callback(ob, ValueLog::new()).expect("cell exists");
    assert_eq!(
        r.remove_callback(ob, cb),
        Err(RemoveCallbackError::NonexistentCell)
    );
}

#[test]
fn add_callback_on_a_nonexistent_cell_returns_none() {
    let mut r = new_reactor();
    let mut other = new_reactor();
    let oa = other.create_input(1);
    let ob = other
        .create_compute(&[CellID::Input(oa)], ArithFunc::AddConst(1))
        .expect("dependency exists");
    assert!(r.add_callback(ob, ValueLog::new()).is_none());
}

#[test]
fn missing_dependency_is_reported_and_no_cell_is_created() {
    let mut r = new_reactor();
    let mut other = new_reactor();
    let _ = other.create_input(1);
    let missing = other.create_input(2);
    let dep = CellID::Input(missing);
    let a = r.create_input(1);
    assert_eq!(
        r.create_compute(&[CellID::Input(a), dep], ArithFunc::Sum),
        Err(dep)
    );
    let next = r.create_input(3);
    assert_eq!(CellID::Input(next).get_id(), 1);
}

#[test]
fn repeated_reads_return_identical_results() {
    let mut r = new_reactor();
    let a = r.create_input(4);
    let b = r
        .create_compute(&[CellID::Input(a)], ArithFunc::AddConst(1))
        .expect("dependency exists");
    assert_eq!(r.value(CellID::Input(a)), r.value(CellID::Input(a)));
    assert_eq!(r.value(CellID::Compute(b)), r.value(CellID::Compute(b)));
    assert!(r.set_value(a, 9));
    assert_eq!(r.value(CellID::Compute(b)), Some(10));
    assert_eq!(r.value(CellID::Compute(b)), Some(10));
}

#[test]
fn set_value_rejects_a_handle_that_names_a_compute_cell() {
    let mut r = new_reactor();
    let c = r
        .create_compute(&[], ArithFunc::Const(5))
        .expect("no dependencies required");
    let mut other = new_reactor();
    let forged = other.create_input(1);
    assert_eq!(CellID::Compute(c).get_id(), CellID::Input(forged).get_id());
    assert!(!r.set_value(forged, 99));
    assert_eq!(r.value(CellID::Compute(c)), Some(5));
}

#[test]
fn set_value_on_a_nonexistent_cell_returns_false() {
    let mut r = new_reactor();
    let mut other = new_reactor();
    let _ = other.create_input(1);
    let far = other.create_input(2);
    assert!(!r.set_value(far, 3));
}

#[test]
fn cell_identifiers_expose_their_numeric_handle() {
    let mut r = new_reactor();
    let a = r.create_input(1);
    let b = r
        .create_compute(&[CellID::Input(a)], ArithFunc::AddConst(1))
        .expect("dependency exists");
    assert_eq!(CellID::Input(a).get_id(), 0);
    assert_eq!(CellID::Compute(b).get_id(), 1);
}

#[test]
fn value_log_records_in_order() {
    let log: ValueLog<i64> = ValueLog::new();
    assert!(log.values().is_empty());
    let mut r = new_reactor();
    let a = r.create_input(0);
    let b = r
        .create_compute(&[CellID::Input(a)], ArithFunc::AddConst(0))
        .expect("dependency exists");
    let cb = r.add_callback(b, log).expect("cell exists");
    assert!(r.set_value(a, 1));
    assert!(r.set_value(a, 2));
    assert!(r.set_value(a, 3));
    assert_eq!(log_of(&r, b, cb), vec![1, 2, 3]);
}

#[test]
fn constant_cell_ignores_its_dependency() {
    let mut r = new_reactor();
    let a = r.create_input(7);
    let c = r
        .create_compute(&[CellID::Input(a)], ArithFunc::Const(42))
        .expect("dependency exists");
    assert_eq!(r.value(CellID::Compute(c)), Some(42));
    assert!(r.set_value(a, -7));
    assert_eq!(r.value(CellID::Compute(c)), Some(42));
}
