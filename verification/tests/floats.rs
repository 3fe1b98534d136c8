use gradient_tape::array::Array;
use gradient_tape::function::{DifferentiableFunction, Square};
use gradient_tape::identity::IdAllocator;
use gradient_tape::scalar::Scalar;
use gradient_tape::tape::Operation;
use gradient_tape::tensor::Tensor;
use gradient_tape::unary_ops::{apply, apply_ref, can_record, HasMeanMethod};

#[derive(Clone, Copy, Debug, PartialEq)]
struct Real(f64);

impl Scalar for Real {
    fn zero_value() -> Real {
        Real(0.0)
    }

    fn one_value() -> Real {
        Real(1.0)
    }

    fn sum(self, rhs: Real) -> Real {
        Real(self.0 + rhs.0)
    }

    fn product(self, rhs: Real) -> Real {
        Real(self.0 * rhs.0)
    }

    fn quotient(self, count: usize) -> Real {
        Real(self.0 / count as f64)
    }

    fn zero() -> Real {
        Real(0.0)
    }

    fn one() -> Real {
        Real(1.0)
    }

    fn plus(self, rhs: Real) -> Real {
        Real(self.0 + rhs.0)
    }

    fn times(self, rhs: Real) -> Real {
        Real(self.0 * rhs.0)
    }

    fn div_count(self, count: usize) -> Real {
        Real(self.0 / count as f64)
    }
}

struct Sine;

impl DifferentiableFunction<Real> for Sine {
    fn value(x: Real) -> Real {
        Real(x.0.sin())
    }

    fn slope(x: Real) -> Real {
        Real(x.0.cos())
    }

    fn f(x: Real) -> Real {
        Real(x.0.sin())
    }

    fn df(x: Real) -> Real {
        Real(x.0.cos())
    }
}

fn close(a: f64, b: f64, tolerance: f64) -> bool {
    (a - b).abs() < tolerance
}

fn reals(values: &[f64]) -> Vec<Real> {
    values.iter().map(|v| Real(*v)).collect()
}

fn plain(values: &Array<Real>) -> Vec<f64> {
    values.elems().iter().map(|v| v.0).collect()
}

fn recorded_derivative<F: DifferentiableFunction<Real>>(inputs: &[f64]) -> Vec<f64> {
    let mut ids = IdAllocator::new();
    let data = Array::from_vec(vec![inputs.len()], reals(inputs)).unwrap();
    let x = Tensor::new(data, &mut ids).trace();
    assert!(can_record(&x, &ids, &vec![inputs.len()]));
    let y = apply::<Real, _, F>(x, &mut ids);
    let tape = y.tape().unwrap();
    assert_eq!(tape.num_operations(), 1);
    let Operation::Unary(op) = tape.operation(0).unwrap();
    plain(tape.derivative(op.parent_deriv).unwrap())
}

#[test]
fn square_then_mean_gives_two_thirds_of_the_input() {
    let mut ids = IdAllocator::new();
    let data = Array::from_vec(vec![3], reals(&[1.0, 2.0, 3.0])).unwrap();
    let x = Tensor::new(data, &mut ids).trace();
    let x_id = x.id();
    let squared = apply::<Real, _, Square>(x, &mut ids);
    assert_eq!(plain(squared.data()), vec![1.0, 4.0, 9.0]);
    assert!(can_record(&squared, &ids, &vec![]));
    let mean = squared.mean(&mut ids);
    assert_eq!(mean.shape().len(), 0);
    assert_eq!(mean.data().len(), 1);
    assert!(close(mean.data().elems()[0].0, 14.0 / 3.0, 1e-12));
    let tape = mean.tape().unwrap();
    assert_eq!(tape.num_operations(), 2);
    let Operation::Unary(first) = tape.operation(0).unwrap();
    let Operation::Unary(second) = tape.operation(1).unwrap();
    assert_eq!(plain(tape.derivative(first.parent_deriv).unwrap()), vec![2.0, 4.0, 6.0]);
    let thirds = plain(tape.derivative(second.parent_deriv).unwrap());
    assert_eq!(thirds.len(), 3);
    assert!(thirds.iter().all(|v| close(*v, 1.0 / 3.0, 1e-12)));
    let mean_id = mean.id();
    let gradients = mean.backward().unwrap();
    assert_eq!(plain(gradients.get(mean_id).unwrap()), vec![1.0]);
    let at_x = gradients.get(x_id).unwrap();
    assert_eq!(at_x.shape(), &vec![3]);
    let at_x = plain(at_x);
    assert!(close(at_x[0], 0.6667, 1e-4));
    assert!(close(at_x[1], 1.3333, 1e-4));
    assert!(close(at_x[2], 2.0, 1e-12));
    assert!(close(at_x[0], 2.0 / 3.0, 1e-12));
    assert!(close(at_x[1], 4.0 / 3.0, 1e-12));
}

#[test]
fn recorded_derivative_of_square_is_twice_the_input() {
    let inputs = [-2.5, -1.0, 0.0, 0.25, 1.0, 3.0];
    let recorded = recorded_derivative::<Square>(&inputs);
    for (x, d) in inputs.iter().zip(recorded.iter()) {
        assert_eq!(*d, 2.0 * x);
    }
}

#[test]
fn recorded_derivative_matches_finite_difference() {
    let inputs = [-2.5, -1.0, -0.3, 0.0, 0.25, 1.0, 1.7, 3.0];
    let step = 1e-4;
    let squares = recorded_derivative::<Square>(&inputs);
    let sines = recorded_derivative::<Sine>(&inputs);
    for (i, x) in inputs.iter().enumerate() {
        let square_slope = (<Square as DifferentiableFunction<Real>>::f(Real(x + step)).0
            - <Square as DifferentiableFunction<Real>>::f(Real(x - step)).0)
            / (2.0 * step);
        assert!(close(squares[i], square_slope, 1e-3));
        let sine_slope = (Sine::f(Real(x + step)).0 - Sine::f(Real(x - step)).0) / (2.0 * step);
        assert!(close(sines[i], sine_slope, 1e-3));
        assert_eq!(sines[i], x.cos());
    }
}

#[test]
fn derivative_is_taken_at_the_input_not_at_the_output() {
    let recorded = recorded_derivative::<Sine>(&[0.5]);
    assert_eq!(recorded, vec![0.5f64.cos()]);
    assert_ne!(recorded, vec![0.5f64.sin().cos()]);
}

#[test]
fn mean_records_one_over_n_in_the_shape_of_the_input() {
    let mut ids = IdAllocator::new();
    let data = Array::from_vec(vec![2, 2], reals(&[1.0, 2.0, 3.0, 6.0])).unwrap();
    let x = Tensor::new(data, &mut ids).trace();
    let x_id = x.id();
    let mean = x.mean(&mut ids);
    assert_eq!(plain(mean.data()), vec![3.0]);
    assert_eq!(mean.shape(), &Vec::<usize>::new());
    let tape = mean.tape().unwrap();
    assert_eq!(tape.num_operations(), 1);
    let Operation::Unary(op) = tape.operation(0).unwrap();
    let deriv = tape.derivative(op.parent_deriv).unwrap();
    assert_eq!(deriv.shape(), &vec![2, 2]);
    assert_eq!(plain(deriv), vec![0.25, 0.25, 0.25, 0.25]);
    let gradients = mean.backward().unwrap();
    let at_x = gradients.get(x_id).unwrap();
    assert_eq!(at_x.shape(), &vec![2, 2]);
    assert_eq!(plain(at_x), vec![0.25, 0.25, 0.25, 0.25]);
}

#[test]
fn forward_is_the_same_with_and_without_a_tape() {
    let inputs = [0.5, -1.5, 2.0];
    let mut ids = IdAllocator::new();
    let with_tape = Tensor::new(Array::from_vec(vec![3], reals(&inputs)).unwrap(), &mut ids).trace();
    let without = Tensor::new(Array::from_vec(vec![3], reals(&inputs)).unwrap(), &mut ids);
    let a = apply::<Real, _, Sine>(with_tape, &mut ids);
    let a = apply::<Real, _, Square>(a, &mut ids);
    let a = a.mean(&mut ids);
    let b = apply::<Real, _, Sine>(without, &mut ids);
    let b = apply::<Real, _, Square>(b, &mut ids);
    let b = b.mean(&mut ids);
    assert_eq!(plain(a.data()), plain(b.data()));
    assert_eq!(a.tape().unwrap().num_operations(), 3);
    assert!(b.tape().is_none());
}

#[test]
fn apply_ref_computes_the_values_and_keeps_the_input() {
    let mut ids = IdAllocator::new();
    let x = Tensor::new(Array::from_vec(vec![2], reals(&[3.0, -4.0])).unwrap(), &mut ids);
    let y = apply_ref::<Real, Square>(&x, &mut ids);
    assert_eq!(plain(y.data()), vec![9.0, 16.0]);
    assert_eq!(plain(x.data()), vec![3.0, -4.0]);
    assert_ne!(x.id(), y.id());
    assert!(y.tape().is_none());
}
