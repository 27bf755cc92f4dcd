use stackvm::company::Company;

#[test]
fn company_it_works() {
    let mut target = Company::new();
    target.add_personnel(String::from("ADD Andrew to Engineering"));
    target.add_personnel(String::from("ADD Elena to Engineering"));
    let ok1 = vec!["Andrew".to_string(), "Elena".to_string()];
    match target.employees_by_dept(String::from("Engineering")) {
        Some(v) => assert_eq!(ok1, *v),
        None => assert_eq!(1, 0),
    }

    target.add_personnel(String::from("ADD Sally to Science"));
    target.add_personnel(String::from("ADD Jake to Science"));
    let ok2 = vec!["Andrew", "Elena", "Jake", "Sally"];
    match target.all_employees() {
        Some(v) => assert_eq!(ok2, v),
        None => assert_eq!(1, 0),
    }
}

#[test]
fn unknown_department_has_no_employees() {
    let mut target = Company::new();
    target.add_personnel(String::from("ADD Ada to Research"));
    assert!(target.employees_by_dept(String::from("Sales")).is_none());
    assert!(target.employees_by_dept(String::from("Research")).is_some());
}

#[test]
fn all_employees_are_sorted_across_departments() {
    let mut target = Company::new();
    target.add_personnel(String::from("ADD Zoe to Ops"));
    target.add_personnel(String::from("ADD Bob to Research"));
    target.add_personnel(String::from("ADD Amy to Ops"));
    let all = target.all_employees().unwrap();
    assert_eq!(all, vec!["Amy", "Bob", "Zoe"]);
}

#[test]
fn extra_whitespace_between_tokens_is_ignored() {
    let mut target = Company::new();
    target.add_personnel(String::from("ADD  Mia   to\tQuality"));
    match target.employees_by_dept(String::from("Quality")) {
        Some(v) => assert_eq!(*v, vec!["Mia".to_string()]),
        None => assert_eq!(1, 0),
    }
}
