use usage_monitor::usage::TokenUsage;

fn usage(input: u64, output: u64, creation: u64, read: u64) -> TokenUsage {
    TokenUsage {
        input_tokens: input,
        output_tokens: output,
        cache_creation_input_tokens: creation,
        cache_read_input_tokens: read,
    }
}

#[test]
fn total_of_sum_is_sum_of_totals() {
    let a = usage(1, 2, 3, 4);
    let b = usage(10, 20, 30, 40);
    let s = a.add(&b);
    assert_eq!(s.total(), a.total() + b.total());
    assert_eq!(s.total(), 110);
    assert_eq!(s, usage(11, 22, 33, 44));
}

#[test]
fn addition_commutes_and_associates() {
    let a = usage(1, 0, 7, 2);
    let b = usage(5, 9, 0, 3);
    let c = usage(0, 4, 6, 8);
    assert_eq!(a.add(&b), b.add(&a));
    assert_eq!(a.add(&b).add(&c), a.add(&b.add(&c)));
    assert_eq!(a.add(&TokenUsage::zero()), a);
    assert_eq!(TokenUsage::default(), TokenUsage::zero());
}

#[test]
fn billable_leaves_out_cache_reads() {
    let u = usage(100, 50, 25, 1000);
    assert_eq!(u.billable(), 175);
    assert_eq!(u.total(), 1175);
    assert_eq!(u.total_input(), 1125);
}

#[test]
fn add_assign_accumulates() {
    let mut u = usage(1, 1, 1, 1);
    u.add_assign(&usage(2, 3, 4, 5));
    assert_eq!(u, usage(3, 4, 5, 6));
}

#[test]
fn checked_add_refuses_overflow() {
    let big = usage(u64::MAX, 0, 0, 0);
    assert_eq!(big.checked_add(&usage(1, 0, 0, 0)), None);
    assert_eq!(big.checked_add(&usage(0, 1, 0, 0)), Some(usage(u64::MAX, 1, 0, 0)));
}
