use md5_calculator::parallel::Md5Calculator;
use md5_calculator::plan::{effective_task_count, plan_slices, Slice};

fn slice(index: usize, offset: usize, length: usize) -> Slice {
    Slice { index, offset, length }
}

#[test]
fn last_slice_takes_remainder() {
    assert_eq!(
        plan_slices(10, 3),
        vec![slice(0, 0, 3), slice(1, 3, 3), slice(2, 6, 4)]
    );
}

#[test]
fn zero_tasks_means_four() {
    assert_eq!(effective_task_count(0), 4);
    assert_eq!(effective_task_count(7), 7);
    assert_eq!(
        plan_slices(7, 0),
        vec![slice(0, 0, 1), slice(1, 1, 1), slice(2, 2, 1), slice(3, 3, 4)]
    );
}

#[test]
fn tasks_clamped_to_length() {
    assert_eq!(plan_slices(2, 5), vec![slice(0, 0, 1), slice(1, 1, 1)]);
}

#[test]
fn empty_input_has_no_slices() {
    assert!(plan_slices(0, 3).is_empty());
}

#[test]
fn slices_are_contiguous_and_sum_to_length() {
    for n in [1usize, 2, 9, 100, 1001] {
        for k in 0usize..12 {
            let s = plan_slices(n, k);
            assert_eq!(s[0].offset, 0);
            for w in s.windows(2) {
                assert_eq!(w[1].offset, w[0].offset + w[0].length);
            }
            assert_eq!(s.iter().map(|x| x.length).sum::<usize>(), n);
            let c = s.len();
            assert_eq!(s[c - 1].length, n / c + n % c);
        }
    }
}

#[test]
fn calculator_settings() {
    let mut calc = Md5Calculator::new(0);
    assert_eq!(calc.get_task_count(), 4);
    assert!(!calc.is_log_enabled());
    calc.set_log_enabled(true);
    assert!(calc.is_log_enabled());
    assert_eq!(Md5Calculator::new(6).get_task_count(), 6);
}
