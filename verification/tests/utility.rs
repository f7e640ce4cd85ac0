use moldyn::utility::add_arrays;
use moldyn::utility::add_vecs_into;
use moldyn::utility::ThreadLocalVec;

#[test]
fn utility_add_arrays() {
    let a = [1, 2, 3];
    let b = [2, 3, 4];

    assert_eq!(add_arrays(&a, &b), [3, 5, 7])
}

#[test]
fn mod_add_arrays() {
    let a = [1, 2, 3];
    let b = [2, 3, 4];

    assert_eq!(moldyn::utility::add_arrays_into(a, b), [3, 5, 7])
}

#[test]
fn add_arrays_into() {
    let a = [1, 2, 3];
    let b = [2, 3, 4];

    assert_eq!(moldyn::utility::add_arrays_into(a, b), [3, 5, 7]);
}

#[test]
fn add_vectors_into() {
    let a = vec![1, 2, 3];
    let b = vec![2, 3, 4];

    assert_eq!(add_vecs_into(a, b), [3, 5, 7]);
}

#[test]
fn add_vectors_of_unequal_length() {
    assert_eq!(add_vecs_into(vec![1, 2, 3, 4], vec![10, 20]), [11, 22]);
    assert_eq!(add_vecs_into(vec![1], vec![10, 20, 30]), [11]);
}

#[test]
fn add_empty_vectors() {
    let none: Vec<i64> = Vec::new();
    assert_eq!(add_vecs_into(none.clone(), vec![1, 2]), none);
    assert_eq!(add_vecs_into(vec![1, 2], none.clone()), none);
    assert_eq!(add_vecs_into(none.clone(), none.clone()), none);
}

#[test]
fn add_vectors_keeps_order_of_operands() {
    let a = vec![String::from("a"), String::from("b")];
    let b = vec!["x", "y"];
    let joined: Vec<String> = add_arrays_of_strings(a, b);
    assert_eq!(joined, ["ax", "by"]);
}

fn add_arrays_of_strings(a: Vec<String>, b: Vec<&str>) -> Vec<String> {
    let b: Vec<Text> = b.into_iter().map(|s| Text(s.to_string())).collect();
    let a: Vec<Text> = a.into_iter().map(Text).collect();
    add_vecs_into(a, b).into_iter().map(|t| t.0).collect()
}

struct Text(String);

impl std::ops::Add for Text {
    type Output = Text;

    fn add(self, other: Text) -> Text {
        Text(self.0 + &other.0)
    }
}

#[test]
fn add_slices_of_unequal_length() {
    assert_eq!(add_arrays(&[1u8, 2, 3], &[4u8]), [5]);
    assert_eq!(add_arrays::<u8>(&[], &[4u8]), []);
}

#[test]
fn add_arrays_of_floats() {
    assert_eq!(moldyn::utility::add_arrays_into([0.5, 1.5], [0.25, 0.5]), [0.75, 2.0]);
}

#[test]
fn add_arrays_of_no_elements() {
    let a: [i32; 0] = [];
    let b: [i32; 0] = [];
    assert_eq!(moldyn::utility::add_arrays_into(a, b), []);
}

#[test]
fn buffers_start_at_the_initial_value() {
    let mut tls = ThreadLocalVec::new(7, 3);
    assert_eq!(*tls.borrow_mut(0), [7, 7, 7]);
    assert_eq!(*tls.borrow_mut(2), [7, 7, 7]);
}

#[test]
fn a_worker_keeps_its_buffer() {
    let mut tls = ThreadLocalVec::new(0, 2);
    tls.borrow_mut(1)[0] = 5;
    tls.borrow_mut(0)[1] = 3;
    tls.borrow_mut(1)[1] += 1;
    assert_eq!(*tls.borrow_mut(1), [5, 1]);
    assert_eq!(*tls.borrow_mut(0), [0, 3]);
}

#[test]
fn sum_over_workers() {
    let mut tls = ThreadLocalVec::new(0, 3);
    tls.borrow_mut(0)[0] = 1;
    tls.borrow_mut(1)[1] = 2;
    tls.borrow_mut(1)[0] = 10;
    tls.borrow_mut(2)[2] = 3;
    assert_eq!(tls.into_sum(), [11, 2, 3]);
}

#[test]
fn sum_skips_workers_without_a_buffer() {
    let mut tls = ThreadLocalVec::new(1, 2);
    tls.borrow_mut(3)[0] = 4;
    tls.borrow_mut(1)[1] = 6;
    assert_eq!(tls.into_sum(), [5, 7]);
}

#[test]
fn sum_of_one_worker_is_its_buffer() {
    let mut tls = ThreadLocalVec::new(2.5, 2);
    tls.borrow_mut(4)[1] = -1.0;
    assert_eq!(tls.into_sum(), [2.5, -1.0]);
}

#[test]
fn sum_is_cut_to_the_shortest_buffer() {
    let mut tls = ThreadLocalVec::new(1, 3);
    tls.borrow_mut(0).pop();
    tls.borrow_mut(1)[0] = 9;
    assert_eq!(tls.into_sum(), [10, 2]);
}

#[test]
fn hyperspherical_to_cartesian() {
    let r = 3.343;
    let p: [f64; 2] = [1.334, 3.544];
    let angles: Vec<(f64, f64)> = p.iter().map(|a| (a.sin(), a.cos())).collect();

    assert_eq!(
        moldyn::utility::hyperspherical_to_cartesian(&angles, r, 1.0),
        vec![r * p[0].cos(), r * p[0].sin() * p[1].cos(), r * p[0].sin() * p[1].sin()]
    );
}

#[test]
fn cartesian_coordinates_of_whole_numbers() {
    // sines 2 and 5, cosines 3 and 7, radius 10
    let angles = [(2, 3), (5, 7)];
    assert_eq!(
        moldyn::utility::hyperspherical_to_cartesian(&angles, 10, 1),
        [10 * 3, 10 * 2 * 7, 10 * 2 * 5]
    );
}

#[test]
fn a_point_without_angles_has_one_coordinate() {
    let angles: [(i64, i64); 0] = [];
    assert_eq!(moldyn::utility::hyperspherical_to_cartesian(&angles, 4, 1), [4]);
}

#[test]
fn a_point_on_the_unit_circle() {
    let angle: f64 = 0.75;
    let x = moldyn::utility::hyperspherical_to_cartesian(&[(angle.sin(), angle.cos())], 1.0, 1.0);
    assert_eq!(x, [angle.cos(), angle.sin()]);
    assert!((x[0] * x[0] + x[1] * x[1] - 1.0).abs() < 1e-15);
}

#[test]
fn sum_does_not_depend_on_the_order_of_the_workers() {
    let buffers = [[1, 20, 300], [4, 50, 600], [7, 80, 900]];
    let orders = [[0, 1, 2], [0, 2, 1], [1, 0, 2], [1, 2, 0], [2, 0, 1], [2, 1, 0]];
    for order in orders {
        let mut tls = ThreadLocalVec::new(0, 3);
        for (buffer, worker) in buffers.iter().zip(order) {
            tls.borrow_mut(worker).copy_from_slice(buffer);
        }
        assert_eq!(tls.into_sum(), [12, 150, 1800]);
    }
}
