use speciation::Age;

#[test]
fn new_age_starts_at_zero() {
    let age = Age::new();
    assert_eq!(age.generations, 0);
    assert_eq!(age.evaluations, 0);
    assert_eq!(age.no_improvements, 0);
}

#[test]
fn increase_counters() {
    let mut age = Age::new();
    age.increase_generations();
    age.increase_generations();
    age.increase_evaluations();
    age.increase_no_improvements();
    age.increase_no_improvements();
    age.increase_no_improvements();
    assert_eq!(age.generations, 2);
    assert_eq!(age.evaluations, 1);
    assert_eq!(age.no_improvements, 3);
}

#[test]
fn reset_generations_also_clears_stagnation() {
    let mut age = Age::new();
    age.increase_generations();
    age.increase_evaluations();
    age.increase_no_improvements();
    age.reset_generations();
    assert_eq!(age.generations, 0);
    assert_eq!(age.no_improvements, 0);
    assert_eq!(age.evaluations, 1);
}

#[test]
fn reset_no_improvements_only() {
    let mut age = Age::new();
    age.increase_generations();
    age.increase_no_improvements();
    age.reset_no_improvements();
    assert_eq!(age.generations, 1);
    assert_eq!(age.no_improvements, 0);
}

#[test]
fn reset_evaluations_only() {
    let mut age = Age::new();
    age.increase_generations();
    age.increase_evaluations();
    age.reset_evaluations();
    assert_eq!(age.evaluations, 0);
    assert_eq!(age.generations, 1);
}
