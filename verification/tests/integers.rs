use gradient_tape::array::Array;
use gradient_tape::function::Square;
use gradient_tape::holder::{NoTape, TapeHolder, WithTape};
use gradient_tape::identity::IdAllocator;
use gradient_tape::scalar::Scalar;
use gradient_tape::shape::{checked_numel, same_extents};
use gradient_tape::tape::{GradientTape, Operation, UnaryOp};
use gradient_tape::tensor::Tensor;
use gradient_tape::unary_ops::{add_unary_op, apply, can_record, HasMeanMethod};

fn array(shape: Vec<usize>, values: Vec<i64>) -> Array<i64> {
    Array::from_vec(shape, values).unwrap()
}

#[test]
fn identities_are_issued_once() {
    let mut ids = IdAllocator::new();
    assert!(ids.has_next());
    let upcoming = ids.peek();
    let a = ids.next_id();
    let b = ids.next_id();
    let c = ids.next_id();
    assert_eq!(a, upcoming);
    assert_ne!(a, b);
    assert_ne!(b, c);
    assert_ne!(a, c);
    assert_ne!(a.token(), b.token());
    assert_ne!(ids.peek(), c);
}

#[test]
fn number_of_elements_is_the_product_of_the_extents() {
    assert_eq!(checked_numel(&vec![]), Some(1));
    assert_eq!(checked_numel(&vec![7]), Some(7));
    assert_eq!(checked_numel(&vec![2, 3, 4]), Some(24));
    assert_eq!(checked_numel(&vec![5, 0, 3]), Some(0));
    assert_eq!(checked_numel(&vec![usize::MAX, 2]), None);
    assert_eq!(checked_numel(&vec![usize::MAX, usize::MAX, 0]), Some(0));
    assert_eq!(checked_numel(&vec![usize::MAX, 1]), Some(usize::MAX));
}

#[test]
fn shapes_are_compared_extent_by_extent() {
    assert!(same_extents(&vec![], &vec![]));
    assert!(same_extents(&vec![2, 3], &vec![2, 3]));
    assert!(!same_extents(&vec![2, 3], &vec![3, 2]));
    assert!(!same_extents(&vec![6], &vec![2, 3]));
}

#[test]
fn an_array_needs_as_many_elements_as_its_shape_describes() {
    assert!(Array::from_vec(vec![2, 2], vec![1i64, 2, 3, 4]).is_some());
    assert!(Array::from_vec(vec![2, 2], vec![1i64, 2, 3]).is_none());
    assert!(Array::from_vec(vec![], vec![5i64]).is_some());
    assert!(Array::from_vec(vec![], Vec::<i64>::new()).is_none());
    assert!(Array::from_vec(vec![3, 0], Vec::<i64>::new()).is_some());
    assert!(Array::from_vec(vec![usize::MAX, 2], vec![1i64]).is_none());
    let a = array(vec![2, 2], vec![1, 2, 3, 4]);
    assert_eq!(a.shape(), &vec![2, 2]);
    assert_eq!(a.elems(), &vec![1, 2, 3, 4]);
    assert_eq!(a.len(), 4);
}

#[test]
fn arrays_are_filled_summed_and_combined() {
    let a = array(vec![3], vec![1, 2, 3]);
    assert_eq!(a.sum(), 6);
    assert_eq!(array(vec![0], vec![]).sum(), 0);
    let sevens = a.filled_like(7);
    assert_eq!(sevens.shape(), &vec![3]);
    assert_eq!(sevens.elems(), &vec![7, 7, 7]);
    let zeros = Array::<i64>::filled(&vec![2, 2], 0);
    assert_eq!(zeros.elems(), &vec![0, 0, 0, 0]);
    assert_eq!(zeros.shape(), &vec![2, 2]);
    let one = Array::scalar(5i64);
    assert_eq!(one.shape(), &Vec::<usize>::new());
    assert_eq!(one.elems(), &vec![5]);
    let upstream = array(vec![3], vec![10, 20, 30]);
    let slope = array(vec![3], vec![2, 3, 4]);
    assert_eq!(a.plus_product(&upstream, &slope).elems(), &vec![21, 62, 123]);
    assert_eq!(a.plus_product(&one, &slope).elems(), &vec![11, 17, 23]);
    assert_eq!(a.plus_product(&one, &slope).shape(), &vec![3]);
    assert_eq!(a.map_value::<Square>().elems(), &vec![1, 4, 9]);
    assert_eq!(a.map_slope::<Square>().elems(), &vec![2, 4, 6]);
}

#[test]
fn integer_scalars_wrap_and_round_toward_zero() {
    assert_eq!(<i64 as Scalar>::zero(), 0);
    assert_eq!(<i64 as Scalar>::one(), 1);
    assert_eq!(3i64.plus(4), 7);
    assert_eq!(i64::MAX.plus(1), i64::MIN);
    assert_eq!(3i64.times(-4), -12);
    assert_eq!(i64::MAX.times(2), -2);
    assert_eq!(7i64.div_count(2), 3);
    assert_eq!((-7i64).div_count(2), -3);
    assert_eq!(1i64.div_count(3), 0);
    assert_eq!(i64::MIN.div_count(1), i64::MIN);
    assert_eq!(i64::MIN.div_count(1usize << 63), -1);
    assert_eq!((i64::MIN + 1).div_count(1usize << 63), 0);
    assert_eq!(i64::MAX.div_count(usize::MAX), 0);
    assert_eq!(i64::MIN.div_count(usize::MAX), 0);
}

#[test]
fn a_slot_is_allocated_once_per_identity() {
    let mut ids = IdAllocator::new();
    let x = ids.next_id();
    let y = ids.next_id();
    let mut tape = GradientTape::<i64>::new();
    assert!(tape.gradient_ref(x).is_none());
    assert!(tape.accepts(x, &vec![2]));
    let first = tape.gradient_ref_for(x, &vec![2]);
    let other = tape.gradient_ref_for(y, &vec![3]);
    let again = tape.gradient_ref_for(x, &vec![2]);
    assert_eq!(first, again);
    assert_ne!(first, other);
    assert_eq!(tape.gradient_ref(x), Some(first));
    assert_eq!(tape.gradient_ref(y), Some(other));
    assert!(tape.accepts(x, &vec![2]));
    assert!(!tape.accepts(x, &vec![3]));
    assert!(!tape.accepts(x, &vec![1, 2]));
    assert!(tape.accepts(ids.peek(), &vec![9, 9]));
}

#[test]
fn the_tape_admits_only_entries_it_can_sweep() {
    let mut ids = IdAllocator::new();
    let x = ids.next_id();
    let y = ids.next_id();
    let s = ids.next_id();
    let w = ids.next_id();
    let mut tape = GradientTape::<i64>::new();
    let at_x = tape.gradient_ref_for(x, &vec![2]);
    let at_y = tape.gradient_ref_for(y, &vec![2]);
    let at_s = tape.gradient_ref_for(s, &vec![]);
    let at_w = tape.gradient_ref_for(w, &vec![3]);
    let d2 = tape.store_derivative(array(vec![2], vec![1, 1]));
    let d3 = tape.store_derivative(array(vec![3], vec![1, 1, 1]));
    let entry = |parent_grad, parent_deriv, result_grad| {
        Operation::Unary(UnaryOp { parent_grad, parent_deriv, result_grad })
    };
    assert!(tape.admits(&entry(at_x, d2, at_y)));
    assert!(tape.admits(&entry(at_x, d2, at_s)));
    assert!(tape.admits(&entry(at_x, d2, at_x)));
    assert!(!tape.admits(&entry(at_x, d3, at_y)));
    assert!(!tape.admits(&entry(at_x, d2, at_w)));
    assert!(!tape.admits(&entry(at_s, d2, at_x)));
    let mut elsewhere = GradientTape::<i64>::new();
    let lone = elsewhere.gradient_ref_for(x, &vec![2]);
    assert!(!elsewhere.admits(&entry(lone, d2, lone)));
    assert_eq!(tape.num_operations(), 0);
    tape.add_operation(entry(at_x, d2, at_y));
    assert_eq!(tape.num_operations(), 1);
    assert_eq!(tape.operation(0), Some(entry(at_x, d2, at_y)));
    assert_eq!(tape.operation(1), None);
    assert_eq!(tape.derivative(d3).unwrap().elems(), &vec![1, 1, 1]);
    assert!(elsewhere.derivative(d3).is_none());
}

#[test]
fn the_seed_gets_a_gradient_of_ones() {
    let mut ids = IdAllocator::new();
    let x = Tensor::new(array(vec![2, 2], vec![1, -2, 3, 4]), &mut ids).trace();
    let x_id = x.id();
    let y = apply::<i64, _, Square>(x, &mut ids);
    let y_id = y.id();
    let gradients = y.backward().unwrap();
    let at_y = gradients.get(y_id).unwrap();
    assert_eq!(at_y.shape(), &vec![2, 2]);
    assert_eq!(at_y.elems(), &vec![1, 1, 1, 1]);
    assert_eq!(gradients.get(x_id).unwrap().elems(), &vec![2, -4, 6, 8]);
    assert!(gradients.get(ids.peek()).is_none());
}

#[test]
fn a_sweep_needs_a_slot_for_its_seed() {
    let mut ids = IdAllocator::new();
    let x = Tensor::new(array(vec![1], vec![5]), &mut ids).trace();
    assert!(x.backward().is_none());
    let tape = GradientTape::<i64>::new();
    assert!(tape.backward(ids.next_id()).is_none());
}

#[test]
fn the_log_is_swept_from_its_last_entry_to_its_first() {
    let mut ids = IdAllocator::new();
    let x = Tensor::new(array(vec![2], vec![3, -1]), &mut ids).trace();
    let x_id = x.id();
    let y = apply::<i64, _, Square>(x, &mut ids);
    let y_id = y.id();
    let z = apply::<i64, _, Square>(y, &mut ids);
    assert_eq!(z.data().elems(), &vec![81, 1]);
    let gradients = z.backward().unwrap();
    assert_eq!(gradients.get(y_id).unwrap().elems(), &vec![18, 2]);
    assert_eq!(gradients.get(x_id).unwrap().elems(), &vec![108, -4]);
}

#[test]
fn fan_out_adds_the_contributions_of_both_paths() {
    let mut ids = IdAllocator::new();
    let x = ids.next_id();
    let y1 = ids.next_id();
    let y2 = ids.next_id();
    let s = ids.next_id();
    let shape = vec![2];
    let mut tape = GradientTape::<i64>::new();
    let at_x = tape.gradient_ref_for(x, &shape);
    let at_y1 = tape.gradient_ref_for(y1, &shape);
    let at_y2 = tape.gradient_ref_for(y2, &shape);
    let at_s = tape.gradient_ref_for(s, &shape);
    assert_eq!(tape.gradient_ref_for(x, &shape), at_x);
    let d1 = tape.store_derivative(array(vec![2], vec![2, 3]));
    let d2 = tape.store_derivative(array(vec![2], vec![10, 20]));
    let e1 = tape.store_derivative(array(vec![2], vec![1, 1]));
    let e2 = tape.store_derivative(array(vec![2], vec![5, 7]));
    let entry = |parent_grad, parent_deriv, result_grad| {
        Operation::Unary(UnaryOp { parent_grad, parent_deriv, result_grad })
    };
    for op in [entry(at_x, d1, at_y1), entry(at_x, d2, at_y2), entry(at_y1, e1, at_s), entry(at_y2, e2, at_s)] {
        assert!(tape.admits(&op));
        tape.add_operation(op);
    }
    let gradients = tape.backward(s).unwrap();
    assert_eq!(gradients.get(s).unwrap().elems(), &vec![1, 1]);
    assert_eq!(gradients.get(y1).unwrap().elems(), &vec![1, 1]);
    assert_eq!(gradients.get(y2).unwrap().elems(), &vec![5, 7]);
    assert_eq!(gradients.get(x).unwrap().elems(), &vec![2 + 50, 3 + 140]);
}

#[test]
fn recording_links_input_derivative_and_output() {
    let mut ids = IdAllocator::new();
    let input = Tensor::new(array(vec![2], vec![4, 5]), &mut ids);
    let output = Tensor::new(array(vec![2], vec![8, 10]), &mut ids);
    let mut tape = GradientTape::<i64>::new();
    add_unary_op(&mut tape, (&input, &output), array(vec![2], vec![2, 2]));
    assert_eq!(tape.num_operations(), 1);
    let Operation::Unary(op) = tape.operation(0).unwrap();
    assert_eq!(Some(op.parent_grad), tape.gradient_ref(input.id()));
    assert_eq!(Some(op.result_grad), tape.gradient_ref(output.id()));
    assert_ne!(op.parent_grad, op.result_grad);
    assert_eq!(tape.derivative(op.parent_deriv).unwrap().elems(), &vec![2, 2]);
    let gradients = tape.backward(output.id()).unwrap();
    assert_eq!(gradients.get(input.id()).unwrap().elems(), &vec![2, 2]);
}

#[test]
fn an_operation_is_refused_where_a_slot_has_another_shape() {
    let mut ids = IdAllocator::new();
    let x = Tensor::new(array(vec![2], vec![4, 5]), &mut ids);
    let mut tape = GradientTape::<i64>::new();
    tape.gradient_ref_for(x.id(), &vec![3]);
    let clash = x.with_tape_holder(WithTape(tape));
    assert!(!can_record(&clash, &ids, &vec![2]));
    let y = Tensor::new(array(vec![2], vec![4, 5]), &mut ids);
    let mut tape = GradientTape::<i64>::new();
    tape.gradient_ref_for(ids.peek(), &vec![5]);
    let taken = y.with_tape_holder(WithTape(tape));
    assert!(!can_record(&taken, &ids, &vec![2]));
    let mut later = IdAllocator::new();
    later.next_id();
    later.next_id();
    later.next_id();
    assert!(can_record(&taken, &later, &vec![2]));
    assert!(can_record(&taken, &later, &vec![]));
    assert!(can_record(&taken, &later, &vec![1, 1]));
    assert!(!can_record(&taken, &later, &vec![3]));
    let (bare, _) = taken.split_tape_holder();
    assert!(can_record(&bare, &later, &vec![3]));
}

#[test]
fn the_tape_moves_from_tensor_to_tensor() {
    let mut ids = IdAllocator::new();
    let x = Tensor::new(array(vec![2], vec![4, 5]), &mut ids);
    assert!(x.tape().is_none());
    let x = x.trace();
    assert_eq!(x.tape().unwrap().num_operations(), 0);
    let id = x.id();
    let (bare, holder) = x.split_tape_holder();
    assert!(bare.tape().is_none());
    assert_eq!(bare.id(), id);
    assert_eq!(bare.data().elems(), &vec![4, 5]);
    let holder = holder.update_with(|mut tape: GradientTape<i64>| {
        tape.gradient_ref_for(id, &vec![2]);
        tape
    });
    let x = bare.with_tape_holder(holder);
    assert_eq!(x.id(), id);
    assert!(x.tape().unwrap().gradient_ref(id).is_some());
    let none = <NoTape as TapeHolder<i64>>::update_with(NoTape, |tape| tape);
    assert!(<NoTape as TapeHolder<i64>>::tape_ref(&none).is_none());
}

#[test]
fn mean_of_integers_rounds_toward_zero() {
    let mut ids = IdAllocator::new();
    let x = Tensor::new(array(vec![3], vec![-1, -2, -4]), &mut ids).trace();
    let x_id = x.id();
    let mean = x.mean(&mut ids);
    assert_eq!(mean.data().elems(), &vec![-2]);
    let gradients = mean.backward().unwrap();
    assert_eq!(gradients.get(x_id).unwrap().elems(), &vec![0, 0, 0]);
    let one = Tensor::new(array(vec![1], vec![9]), &mut ids).trace();
    let one_id = one.id();
    let mean = one.mean(&mut ids);
    assert_eq!(mean.data().elems(), &vec![9]);
    assert_eq!(mean.backward().unwrap().get(one_id).unwrap().elems(), &vec![1]);
}

#[test]
fn an_entry_whose_input_is_the_seed_adds_to_the_ones() {
    let mut ids = IdAllocator::new();
    let x = ids.next_id();
    let mut tape = GradientTape::<i64>::new();
    let at_x = tape.gradient_ref_for(x, &vec![2]);
    let d = tape.store_derivative(array(vec![2], vec![5, -3]));
    let op = Operation::Unary(UnaryOp { parent_grad: at_x, parent_deriv: d, result_grad: at_x });
    assert!(tape.admits(&op));
    tape.add_operation(op);
    let gradients = tape.backward(x).unwrap();
    assert_eq!(gradients.get(x).unwrap().elems(), &vec![6, -2]);
}
