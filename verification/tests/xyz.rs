use moldyn::types::Particle;
use moldyn::types::WritableTuple;
use moldyn::xyz::format_frame;
use moldyn::xyz::layout_frame;
use moldyn::xyz::push_decimal;

struct Pair(f64, f64);

impl WritableTuple for Pair {
    fn write(&self) -> String {
        format!("{:.3}\t{:.3}", self.0, self.1)
    }
}

fn particle(x: f64, y: f64, vx: f64, vy: f64) -> Particle<Pair, Pair> {
    Particle {
        old_position: Pair(x, y),
        position: Pair(x, y),
        velocity: Pair(vx, vy),
        force: Pair(0.0, 0.0),
    }
}

#[test]
fn frame_of_two_particles() {
    let particles = vec![particle(1.0, 2.5, -0.125, 0.0), particle(10.0, 0.0004, 3.0, 1.0 / 3.0)];
    assert_eq!(
        format_frame(&particles),
        "2\n0\t1.000\t2.500\t-0.125\t0.000\n1\t10.000\t0.000\t3.000\t0.333\n"
    );
}

#[test]
fn frame_of_no_particles() {
    let particles: Vec<Particle<Pair, Pair>> = Vec::new();
    assert_eq!(format_frame(&particles), "0\n");
}

#[test]
fn frame_counts_and_numbers_in_decimal() {
    let particles: Vec<Particle<Pair, Pair>> = (0..12).map(|k| particle(k as f64, 0.0, 0.0, 0.0)).collect();
    let text = format_frame(&particles);
    let lines: Vec<&str> = text.lines().collect();
    assert_eq!(lines.len(), 13);
    assert_eq!(lines[0], "12");
    assert_eq!(lines[1], "0\t0.000\t0.000\t0.000\t0.000");
    assert_eq!(lines[11], "10\t10.000\t0.000\t0.000\t0.000");
    assert_eq!(lines[12], "11\t11.000\t0.000\t0.000\t0.000");
    assert!(text.ends_with('\n'));
}

#[test]
fn decimal_digits() {
    for n in [0usize, 7, 10, 99, 100, 1234567890, usize::MAX] {
        let mut text = String::from("n=");
        push_decimal(&mut text, n);
        assert_eq!(text, format!("n={}", n));
    }
}

#[test]
fn layout_of_given_texts() {
    let rows = vec![
        (String::from("a"), String::from("b")),
        (String::new(), String::from("1\t2")),
    ];
    assert_eq!(layout_frame(&rows), "2\n0\ta\tb\n1\t\t1\t2\n");
    assert_eq!(layout_frame(&Vec::new()), "0\n");
}
