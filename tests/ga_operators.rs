use rand::rngs::SmallRng;
use rand::RngExt;
use std::collections::HashSet;
use u_metaheur::ga::{
    insert_mutation, invert_mutation, order_crossover, pmx_crossover, segment_bounds,
    swap_mutation,
};
use u_numflow::random::create_rng;

fn is_valid_permutation(perm: &[usize], n: usize) -> bool {
    if perm.len() != n {
        return false;
    }
    let set: HashSet<usize> = perm.iter().copied().collect();
    set.len() == n && perm.iter().all(|&v| v < n)
}

fn draw2(n: usize, rng: &mut SmallRng) -> (usize, usize) {
    let a = rng.random_range(0..n);
    let b = rng.random_range(0..n);
    (a, b)
}

fn ox(p1: &[usize], p2: &[usize], rng: &mut SmallRng) -> (Vec<usize>, Vec<usize>) {
    if p1.len() == 1 {
        return order_crossover(p1, p2, 0, 0);
    }
    let (a, b) = draw2(p1.len(), rng);
    order_crossover(p1, p2, a, b)
}

fn pmx(p1: &[usize], p2: &[usize], rng: &mut SmallRng) -> (Vec<usize>, Vec<usize>) {
    if p1.len() == 1 {
        return pmx_crossover(p1, p2, 0, 0);
    }
    let (a, b) = draw2(p1.len(), rng);
    pmx_crossover(p1, p2, a, b)
}

fn swap(perm: &mut Vec<usize>, rng: &mut SmallRng) {
    if perm.len() < 2 {
        return swap_mutation(perm, 0, 0);
    }
    let (i, j) = draw2(perm.len(), rng);
    swap_mutation(perm, i, j);
}

fn insert(perm: &mut Vec<usize>, rng: &mut SmallRng) {
    if perm.len() < 2 {
        return insert_mutation(perm, 0, 0);
    }
    let (from, to) = draw2(perm.len(), rng);
    insert_mutation(perm, from, to);
}

fn invert(perm: &mut Vec<usize>, rng: &mut SmallRng) {
    if perm.len() < 2 {
        return invert_mutation(perm, 0, 0);
    }
    let (a, b) = draw2(perm.len(), rng);
    invert_mutation(perm, a, b);
}

#[test]
fn test_ox_produces_valid_permutations() {
    let mut rng = create_rng(42);
    let p1 = vec![0, 1, 2, 3, 4, 5, 6, 7];
    let p2 = vec![7, 6, 5, 4, 3, 2, 1, 0];
    for _ in 0..100 {
        let (c1, c2) = ox(&p1, &p2, &mut rng);
        assert!(is_valid_permutation(&c1, 8), "OX child1 not valid: {c1:?}");
        assert!(is_valid_permutation(&c2, 8), "OX child2 not valid: {c2:?}");
    }
}

#[test]
fn test_ox_preserves_segment() {
    let mut rng = create_rng(123);
    let p1 = vec![0, 1, 2, 3, 4];
    let p2 = vec![4, 3, 2, 1, 0];
    for _ in 0..50 {
        let (c1, _c2) = ox(&p1, &p2, &mut rng);
        assert!(is_valid_permutation(&c1, 5));
    }
}

#[test]
fn test_ox_single_element() {
    let mut rng = create_rng(42);
    let p1 = vec![0];
    let p2 = vec![0];
    let (c1, c2) = ox(&p1, &p2, &mut rng);
    assert_eq!(c1, vec![0]);
    assert_eq!(c2, vec![0]);
}

#[test]
fn test_ox_two_elements() {
    let mut rng = create_rng(42);
    let p1 = vec![0, 1];
    let p2 = vec![1, 0];
    for _ in 0..20 {
        let (c1, c2) = ox(&p1, &p2, &mut rng);
        assert!(is_valid_permutation(&c1, 2));
        assert!(is_valid_permutation(&c2, 2));
    }
}

#[test]
fn test_pmx_produces_valid_permutations() {
    let mut rng = create_rng(42);
    let p1 = vec![0, 1, 2, 3, 4, 5, 6, 7];
    let p2 = vec![3, 7, 5, 1, 6, 0, 2, 4];
    for _ in 0..100 {
        let (c1, c2) = pmx(&p1, &p2, &mut rng);
        assert!(is_valid_permutation(&c1, 8), "PMX child1 not valid: {c1:?}");
        assert!(is_valid_permutation(&c2, 8), "PMX child2 not valid: {c2:?}");
    }
}

#[test]
fn test_pmx_preserves_segment() {
    let mut rng = create_rng(99);
    let p1 = vec![0, 1, 2, 3, 4];
    let p2 = vec![4, 3, 2, 1, 0];
    for _ in 0..50 {
        let (c1, _) = pmx(&p1, &p2, &mut rng);
        assert!(is_valid_permutation(&c1, 5));
    }
}

#[test]
fn test_pmx_single_element() {
    let mut rng = create_rng(42);
    let p1 = vec![0];
    let p2 = vec![0];
    let (c1, c2) = pmx(&p1, &p2, &mut rng);
    assert_eq!(c1, vec![0]);
    assert_eq!(c2, vec![0]);
}

#[test]
fn test_pmx_identical_parents() {
    let mut rng = create_rng(42);
    let p = vec![0, 1, 2, 3, 4];
    let (c1, c2) = pmx(&p, &p, &mut rng);
    assert_eq!(c1, p);
    assert_eq!(c2, p);
}

#[test]
fn test_swap_preserves_permutation() {
    let mut rng = create_rng(42);
    for _ in 0..100 {
        let mut perm: Vec<usize> = (0..10).collect();
        swap(&mut perm, &mut rng);
        assert!(is_valid_permutation(&perm, 10));
    }
}

#[test]
fn test_swap_single_element() {
    let mut rng = create_rng(42);
    let mut perm = vec![0];
    swap(&mut perm, &mut rng);
    assert_eq!(perm, vec![0]);
}

#[test]
fn test_insert_preserves_permutation() {
    let mut rng = create_rng(42);
    for _ in 0..100 {
        let mut perm: Vec<usize> = (0..10).collect();
        insert(&mut perm, &mut rng);
        assert!(is_valid_permutation(&perm, 10));
    }
}

#[test]
fn test_insert_single_element() {
    let mut rng = create_rng(42);
    let mut perm = vec![0];
    insert(&mut perm, &mut rng);
    assert_eq!(perm, vec![0]);
}

#[test]
fn test_invert_preserves_permutation() {
    let mut rng = create_rng(42);
    for _ in 0..100 {
        let mut perm: Vec<usize> = (0..10).collect();
        invert(&mut perm, &mut rng);
        assert!(is_valid_permutation(&perm, 10));
    }
}

#[test]
fn test_invert_reverses_segment() {
    let mut rng = create_rng(42);
    let mut perm = vec![0, 1, 2, 3, 4];
    let original = perm.clone();
    let mut changed = false;
    for _ in 0..100 {
        perm = original.clone();
        invert(&mut perm, &mut rng);
        if perm != original {
            changed = true;
            break;
        }
    }
    assert!(changed, "invert should change the permutation eventually");
    assert!(is_valid_permutation(&perm, 5));
}

#[test]
fn test_full_pipeline_preserves_validity() {
    let mut rng = create_rng(42);
    let p1: Vec<usize> = (0..20).collect();
    let mut p2: Vec<usize> = (0..20).collect();
    p2.reverse();
    for _ in 0..50 {
        let (mut c1, mut c2) = ox(&p1, &p2, &mut rng);
        swap(&mut c1, &mut rng);
        insert(&mut c2, &mut rng);
        invert(&mut c1, &mut rng);
        assert!(is_valid_permutation(&c1, 20), "pipeline c1 invalid: {c1:?}");
        assert!(is_valid_permutation(&c2, 20), "pipeline c2 invalid: {c2:?}");
    }
}

#[test]
fn test_pmx_pipeline_preserves_validity() {
    let mut rng = create_rng(42);
    let p1: Vec<usize> = (0..15).collect();
    let mut p2: Vec<usize> = (0..15).collect();
    p2.reverse();
    for _ in 0..50 {
        let (mut c1, _) = pmx(&p1, &p2, &mut rng);
        swap(&mut c1, &mut rng);
        assert!(is_valid_permutation(&c1, 15));
    }
}

#[test]
fn test_random_segment_bounds() {
    let mut rng = create_rng(42);
    for _ in 0..1000 {
        let (a, b) = draw2(10, &mut rng);
        let (start, end) = segment_bounds(a, b);
        assert!(start <= end);
        assert!(end < 10);
    }
}

#[test]
fn mutations_on_given_positions() {
    let mut p = vec![0, 1, 2, 3, 4];
    swap_mutation(&mut p, 1, 3);
    assert_eq!(p, vec![0, 3, 2, 1, 4]);
    let mut p = vec![0, 1, 2, 3, 4];
    insert_mutation(&mut p, 0, 4);
    assert_eq!(p, vec![1, 2, 3, 4, 0]);
    let mut p = vec![0, 1, 2, 3, 4];
    insert_mutation(&mut p, 3, 1);
    assert_eq!(p, vec![0, 3, 1, 2, 4]);
    let mut p = vec![0, 1, 2, 3, 4, 5];
    invert_mutation(&mut p, 4, 1);
    assert_eq!(p, vec![0, 4, 3, 2, 1, 5]);
    let mut p = vec![0, 1, 2, 3, 4, 5];
    invert_mutation(&mut p, 2, 2);
    assert_eq!(p, vec![0, 1, 2, 3, 4, 5]);
}

#[test]
fn crossovers_on_given_segment() {
    let p1 = [0, 1, 2, 3, 4, 5, 6, 7];
    let p2 = [3, 7, 5, 1, 6, 0, 2, 4];
    let (c1, c2) = order_crossover(&p1, &p2, 5, 2);
    assert_eq!(c1, vec![6, 0, 2, 3, 4, 5, 7, 1]);
    assert_eq!(c2, vec![3, 4, 5, 1, 6, 0, 7, 2]);
    let (c1, c2) = pmx_crossover(&p1, &p2, 2, 5);
    assert_eq!(c1, vec![1, 7, 2, 3, 4, 5, 0, 6]);
    assert_eq!(c2, vec![2, 3, 5, 1, 6, 0, 4, 7]);
}
