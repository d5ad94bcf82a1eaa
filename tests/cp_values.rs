use u_metaheur::cp::{
    BoolVar, Constraint, DurationVar, IntVar, IntervalSolution, IntervalVar, SimpleCpSolver,
    SolverConfig, SolverStatus, TimeVar,
};

#[test]
fn test_solver_config_default() {
    let config = SolverConfig::default();
    assert_eq!(config.time_limit_ms, 60_000);
    assert_eq!(config.num_workers, 1);
    assert!(!config.stop_after_first);
}

#[test]
fn test_int_var() {
    let v = IntVar::new("x", 0, 10);
    assert_eq!(v.domain_size(), 11);
    assert!(!v.is_fixed());

    let f = IntVar::fixed("y", 5);
    assert!(f.is_fixed());
    assert_eq!(f.domain_size(), 1);
}

#[test]
fn test_bool_var() {
    let b = BoolVar::new("flag");
    assert!(b.fixed.is_none());

    let f = BoolVar::fixed("flag2", true);
    assert_eq!(f.fixed, Some(true));
}

#[test]
fn test_interval_var() {
    let iv = IntervalVar::new("op1", 0, 100, 50, 200);
    assert_eq!(iv.name, "op1");
    assert_eq!(iv.start.min, 0);
    assert_eq!(iv.start.max, 100);
    assert_eq!(iv.duration.fixed, Some(50));
    assert_eq!(iv.end.min, 50);
    assert_eq!(iv.end.max, 200);
    assert!(!iv.is_optional);
}

#[test]
fn test_optional_interval() {
    let iv = IntervalVar::new("op1", 0, 100, 50, 200).as_optional("op1_present");
    assert!(iv.is_optional);
    assert_eq!(iv.presence.as_ref().unwrap().name, "op1_present");
}

#[test]
fn test_variable_duration() {
    let iv = IntervalVar::new("op1", 0, 100, 50, 200).with_variable_duration(30, 70);
    assert!(!iv.duration.is_fixed());
    assert_eq!(iv.duration.min, 30);
    assert_eq!(iv.duration.max, 70);
}

#[test]
fn int_var_keeps_name_and_bounds() {
    let v = IntVar::new("load", -5, 5);
    assert_eq!(v.name, "load");
    assert_eq!(v.min, -5);
    assert_eq!(v.max, 5);
    assert_eq!(v.fixed, None);
    assert_eq!(v.domain_size(), 11);
    let f = IntVar::fixed("z", -3);
    assert_eq!((f.min, f.max, f.fixed), (-3, -3, Some(-3)));
}

#[test]
fn time_and_duration_vars() {
    let t = TimeVar::new(3, 9);
    assert_eq!(t, TimeVar { min: 3, max: 9, fixed: None });
    assert!(!t.is_fixed());
    let tf = TimeVar::fixed(4);
    assert!(tf.is_fixed());
    assert_eq!((tf.min, tf.max), (4, 4));
    let d = DurationVar::new(1, 2);
    assert!(!d.is_fixed());
    let df = DurationVar::fixed(7);
    assert_eq!(df, DurationVar { min: 7, max: 7, fixed: Some(7) });
}

#[test]
fn interval_end_starts_after_duration() {
    let iv = IntervalVar::new("a", 10, 20, 5, 40);
    assert_eq!(iv.end.min, 15);
    assert_eq!(iv.start.fixed, None);
    assert!(iv.presence.is_none());
    let opt = iv.clone().as_optional("p");
    assert_eq!(opt.start, iv.start);
    assert_eq!(opt.duration, iv.duration);
    assert_eq!(opt.presence.as_ref().unwrap().fixed, None);
}

#[test]
fn solver_values() {
    assert_eq!(SimpleCpSolver::new(), SimpleCpSolver::default());
    let s = IntervalSolution { start: 0, end: 5, duration: 5, is_present: true };
    assert_eq!(s.end - s.start, s.duration);
    assert_ne!(SolverStatus::Optimal, SolverStatus::Feasible);
    let c = Constraint::Precedence { before: "a".to_string(), after: "b".to_string(), min_delay: 2 };
    assert!(matches!(c, Constraint::Precedence { min_delay: 2, .. }));
}
