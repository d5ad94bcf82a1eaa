use u_metaheur::ga::{ox_build_child, pmx_build_child};

fn is_perm(v: &[usize]) -> bool {
    let mut seen = vec![false; v.len()];
    for &x in v {
        if x >= v.len() || seen[x] {
            return false;
        }
        seen[x] = true;
    }
    true
}

#[test]
fn ox_child_keeps_segment_and_donor_order() {
    let p1 = [0, 1, 2, 3, 4, 5, 6, 7];
    let p2 = [3, 7, 5, 1, 6, 0, 2, 4];
    assert_eq!(ox_build_child(&p1, &p2, 2, 5), vec![6, 0, 2, 3, 4, 5, 7, 1]);
    assert_eq!(ox_build_child(&p2, &p1, 2, 5), vec![3, 4, 5, 1, 6, 0, 7, 2]);
}

#[test]
fn ox_child_other_segment() {
    let p1 = [1, 2, 3, 4, 5, 6, 7, 8, 0];
    let p2 = [8, 4, 7, 3, 6, 2, 5, 1, 0];
    let c = ox_build_child(&p1, &p2, 3, 5);
    assert_eq!(c, vec![7, 3, 2, 4, 5, 6, 1, 0, 8]);
    assert!(is_perm(&c));
}

#[test]
fn ox_child_whole_segment_is_template() {
    let p1 = [2, 0, 1];
    let p2 = [1, 2, 0];
    assert_eq!(ox_build_child(&p1, &p2, 0, 2), vec![2, 0, 1]);
    assert_eq!(ox_build_child(&p1, &p2, 2, 2), vec![2, 0, 1]);
}

#[test]
fn pmx_child_follows_mapping() {
    let p1 = [0, 1, 2, 3, 4, 5, 6, 7];
    let p2 = [3, 7, 5, 1, 6, 0, 2, 4];
    assert_eq!(pmx_build_child(&p1, &p2, 2, 5), vec![1, 7, 2, 3, 4, 5, 0, 6]);
    assert_eq!(pmx_build_child(&p2, &p1, 2, 5), vec![2, 3, 5, 1, 6, 0, 4, 7]);
}

#[test]
fn pmx_child_other_segment() {
    let p1 = [1, 2, 3, 4, 5, 6, 7, 8, 0];
    let p2 = [8, 4, 7, 3, 6, 2, 5, 1, 0];
    let c = pmx_build_child(&p1, &p2, 3, 5);
    assert_eq!(c, vec![8, 3, 7, 4, 5, 6, 2, 1, 0]);
    assert!(is_perm(&c));
}

#[test]
fn pmx_child_single_position_segment() {
    assert_eq!(pmx_build_child(&[2, 0, 1], &[1, 2, 0], 2, 2), vec![0, 2, 1]);
    assert_eq!(pmx_build_child(&[0], &[0], 0, 0), vec![0]);
}
