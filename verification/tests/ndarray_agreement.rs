use gradient_tape::array::Array;
use gradient_tape::function::{DifferentiableFunction, Square};
use gradient_tape::identity::IdAllocator;
use gradient_tape::scalar::Scalar;
use gradient_tape::tensor::Tensor;
use gradient_tape::unary_ops::{apply, HasMeanMethod};
use ndarray::{arr0, ArrayD, IxDyn};

#[derive(Clone, Copy, Debug, PartialEq)]
struct Single(f32);

impl Scalar for Single {
    fn zero_value() -> Single {
        Single(0.0)
    }

    fn one_value() -> Single {
        Single(1.0)
    }

    fn sum(self, rhs: Single) -> Single {
        Single(self.0 + rhs.0)
    }

    fn product(self, rhs: Single) -> Single {
        Single(self.0 * rhs.0)
    }

    fn quotient(self, count: usize) -> Single {
        Single(self.0 / count as f32)
    }

    fn zero() -> Single {
        Single(0.0)
    }

    fn one() -> Single {
        Single(1.0)
    }

    fn plus(self, rhs: Single) -> Single {
        Single(self.0 + rhs.0)
    }

    fn times(self, rhs: Single) -> Single {
        Single(self.0 * rhs.0)
    }

    fn div_count(self, count: usize) -> Single {
        Single(self.0 / count as f32)
    }
}

struct Tanh;

impl DifferentiableFunction<Single> for Tanh {
    fn value(x: Single) -> Single {
        Self::f(x)
    }

    fn slope(x: Single) -> Single {
        Self::df(x)
    }

    fn f(x: Single) -> Single {
        Single(x.0.tanh())
    }

    fn df(x: Single) -> Single {
        Single(1.0 - x.0.tanh().powi(2))
    }
}

fn sample() -> ArrayD<f32> {
    let values = vec![0.5, -1.25, 2.0, 3.5, -0.75, 4.0];
    ArrayD::from_shape_vec(IxDyn(&[2, 3]), values).unwrap()
}

fn from_ndarray(values: &ArrayD<f32>) -> Array<Single> {
    let data: Vec<Single> = values.iter().map(|v| Single(*v)).collect();
    Array::from_vec(values.shape().to_vec(), data).unwrap()
}

fn to_ndarray(values: &Array<Single>) -> ArrayD<f32> {
    let data: Vec<f32> = values.elems().iter().map(|v| v.0).collect();
    ArrayD::from_shape_vec(IxDyn(values.shape()), data).unwrap()
}

#[test]
fn arrays_keep_the_shape_and_order_of_ndarray() {
    let values = sample();
    let copy = from_ndarray(&values);
    assert_eq!(copy.shape().as_slice(), values.shape());
    assert_eq!(copy.len(), values.len());
    assert_eq!(to_ndarray(&copy), values);
    let zeros = Array::filled(&vec![2, 3], Single(0.0));
    assert_eq!(to_ndarray(&zeros), ArrayD::<f32>::zeros(IxDyn(&[2, 3])));
    let ones = copy.filled_like(Single(1.0));
    assert_eq!(to_ndarray(&ones), ArrayD::<f32>::ones(IxDyn(&[2, 3])));
    assert_eq!(to_ndarray(&Array::scalar(Single(7.0))), arr0(7.0f32).into_dyn());
}

#[test]
fn elementwise_maps_agree_with_mapv() {
    let values = sample();
    let copy = from_ndarray(&values);
    assert_eq!(to_ndarray(&copy.map_value::<Tanh>()), values.mapv(|x| x.tanh()));
    assert_eq!(to_ndarray(&copy.map_slope::<Tanh>()), values.mapv(|x| 1.0 - x.tanh().powi(2)));
    assert_eq!(to_ndarray(&copy.map_value::<Square>()), values.mapv(|x| x * x));
    assert_eq!(to_ndarray(&copy.map_slope::<Square>()), values.mapv(|x| 2.0 * x));
}

#[test]
fn accumulation_agrees_with_ndarray_arithmetic() {
    let target = sample();
    let upstream = target.mapv(|x| x - 1.0);
    let slope = target.mapv(|x| 0.5 * x);
    let expected = &target + &(&upstream * &slope);
    let got = from_ndarray(&target).plus_product(&from_ndarray(&upstream), &from_ndarray(&slope));
    assert_eq!(to_ndarray(&got), expected);
    let single = arr0(3.0f32).into_dyn();
    let expected = &target + &(&slope * &single);
    let got = from_ndarray(&target).plus_product(&from_ndarray(&single), &from_ndarray(&slope));
    assert_eq!(to_ndarray(&got), expected);
}

#[test]
fn mean_agrees_with_ndarray() {
    let values = sample();
    let mut ids = IdAllocator::new();
    let x = Tensor::new(from_ndarray(&values), &mut ids).trace();
    let x_id = x.id();
    let mean = x.mean(&mut ids);
    assert_eq!(to_ndarray(mean.data()), arr0(values.mean().unwrap()).into_dyn());
    let gradients = mean.backward().unwrap();
    let expected = values.mapv(|_| 1.0 / 6.0);
    assert_eq!(to_ndarray(gradients.get(x_id).unwrap()), expected);
}

#[test]
fn a_chain_agrees_with_the_chain_rule_on_ndarray() {
    let values = sample();
    let mut ids = IdAllocator::new();
    let x = Tensor::new(from_ndarray(&values), &mut ids).trace();
    let x_id = x.id();
    let y = apply::<Single, _, Tanh>(x, &mut ids);
    let z = apply::<Single, _, Square>(y, &mut ids);
    assert_eq!(to_ndarray(z.data()), values.mapv(|x| x.tanh() * x.tanh()));
    let gradients = z.mean(&mut ids).backward().unwrap();
    let through_mean = values.mapv(|_| 0.0 + 1.0 * (1.0 / 6.0));
    let through_square = values.mapv(|_| 0.0f32) + &through_mean * &values.mapv(|x| x.tanh() + x.tanh());
    let through_tanh = values.mapv(|_| 0.0f32) + &through_square * &values.mapv(|x| 1.0 - x.tanh().powi(2));
    assert_eq!(to_ndarray(gradients.get(x_id).unwrap()), through_tanh);
}
