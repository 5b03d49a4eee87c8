use std::collections::HashMap;
use utf8proj::model::{DependencyType, Duration};
use utf8proj::psplib::{amount_of, optimal_makespan, parse_optimal_solutions, parse_u32, sections_ordered, PsplibInstance};

const SAMPLE_PSPLIB: &str = r#"
************************************************************************
file with calculation calculation calculation
************************************************************************
projects                      :  1
jobs (incl. supersource/sink ):  32
horizon                       :  115
RESOURCES
  - renewable                 :  4   R
  - nonrenewable              :  0   N
  - doubly constrained        :  0   D
************************************************************************
PROJECT INFORMATION:
pronr.  #jobs rel.date duedate tardcost  MPM-Time
    1     30      0       41        5       41
************************************************************************
PRECEDENCE RELATIONS:
jobnr.    #modes  #successors   successors
   1        1          3           2   3   4
   2        1          3           7   8  10
   3        1          3           5   6  12
   4        1          2          11  14
   5        1          2          16  18
   6        1          2           9  11
   7        1          1          13
   8        1          2          13  23
   9        1          2          17  21
  10        1          3          15  16  22
  11        1          2          13  23
  12        1          3          14  15  22
  13        1          1          20
  14        1          3          16  17  24
  15        1          2          19  20
  16        1          1          26
  17        1          2          19  26
  18        1          3          21  22  23
  19        1          2          25  29
  20        1          3          21  25  26
  21        1          2          24  29
  22        1          2          24  28
  23        1          3          27  28  30
  24        1          2          25  27
  25        1          1          30
  26        1          2          27  28
  27        1          1          29
  28        1          1          31
  29        1          1          31
  30        1          1          31
  31        1          1          32
  32        1          0
************************************************************************
REQUESTS/DURATIONS:
jobnr. mode duration  R 1  R 2  R 3  R 4
------------------------------------------------------------------------
  1      1     0       0    0    0    0
  2      1     3       7    3    2    6
  3      1     9       5    4    1    1
  4      1     7       4    4    5    2
  5      1     9       3    1    3    5
  6      1     1       3    2    3    6
  7      1     6       5    2    7    1
  8      1     5       1    9    3    3
  9      1     3       4    4    7    2
 10      1     4       2    6    4    8
 11      1     5       1   10    9    5
 12      1     5       5    3    5    4
 13      1     7       6    3    2    5
 14      1     4       6    8    7    2
 15      1     9       6    3    8    2
 16      1     3       1    2    2    6
 17      1     4       3    5    5    5
 18      1     9       6    2    5    2
 19      1     9       9    6   10    2
 20      1     9       5    8    7    7
 21      1     4       4    1    2    8
 22      1     8       4    5    6    1
 23      1     4       1    8    9    4
 24      1     5       9    5    8    6
 25      1     6       2    1    7   10
 26      1     5       7    1    8    8
 27      1     4       2    3    1    8
 28      1     3       5    9    3    2
 29      1     5       2    2    6    3
 30      1     9       7    6    6    9
 31      1     3       3    3    8    3
 32      1     0       0    0    0    0
************************************************************************
RESOURCEAVAILABILITIES:
  R 1  R 2  R 3  R 4
   12   13   12   13
************************************************************************
"#;

#[test]
fn test_parse_psplib_instance() {
    let instance = PsplibInstance::parse(SAMPLE_PSPLIB, "test_instance").unwrap();

    assert_eq!(instance.name, "test_instance");
    assert_eq!(instance.jobs, 32);
    assert_eq!(instance.num_resources, 4);

    // Job 2: duration 3, requests R1=7, R2=3, R3=2, R4=6
    assert_eq!(instance.durations.get(&2), Some(&3));
    // Only positive requests are kept
    if let Some(j2_demands) = instance.demands.get(&2) {
        assert!(amount_of(j2_demands, "R1").is_some() || amount_of(j2_demands, "R2").is_some());
    }

    assert_eq!(amount_of(&instance.capacities, "R1"), Some(12));
    assert_eq!(amount_of(&instance.capacities, "R2"), Some(13));

    assert!(!instance.precedence.is_empty(), "Precedence should not be empty");

    if let Some(j1_succ) = instance.precedence.get(&1) {
        assert!(j1_succ.contains(&2));
        assert!(j1_succ.contains(&3));
        assert!(j1_succ.contains(&4));
    } else {
        panic!("Job 1 not found in precedence map");
    }
}

#[test]
fn psplib_header_and_tables_are_read_exactly() {
    let instance = PsplibInstance::parse(SAMPLE_PSPLIB, "x").unwrap();
    assert_eq!(instance.horizon, 115);
    assert_eq!(instance.precedence.len(), 32);
    assert_eq!(instance.precedence.get(&2), Some(&vec![7, 8, 10]));
    assert_eq!(instance.precedence.get(&32), Some(&vec![]));
    assert_eq!(instance.durations.len(), 32);
    assert_eq!(instance.durations.get(&1), Some(&0));
    assert_eq!(instance.durations.get(&30), Some(&9));
    let j2 = instance.demands.get(&2).unwrap();
    assert_eq!(
        j2,
        &vec![("R1".to_string(), 7), ("R2".to_string(), 3), ("R3".to_string(), 2), ("R4".to_string(), 6)]
    );
    // The supersource requests nothing.
    assert!(instance.demands.get(&1).unwrap().is_empty());
    assert_eq!(
        instance.capacities,
        vec![("R1".to_string(), 12), ("R2".to_string(), 13), ("R3".to_string(), 12), ("R4".to_string(), 13)]
    );
}

#[test]
fn psplib_defaults_without_sections() {
    let instance = PsplibInstance::parse("nothing here\n", "empty").unwrap();
    assert_eq!(instance.jobs, 0);
    assert_eq!(instance.num_resources, 4);
    assert_eq!(instance.horizon, 100);
    assert!(instance.precedence.is_empty());
    assert!(instance.durations.is_empty());
    assert_eq!(amount_of(&instance.capacities, "R4"), Some(10));
    assert_eq!(amount_of(&instance.capacities, "R5"), None);
}

#[test]
fn psplib_missing_capacities_default_to_ten() {
    let content = "  - renewable                 :  3\nRESOURCEAVAILABILITIES:\n  R 1  R 2  R 3\n   7\n";
    let instance = PsplibInstance::parse(content, "partial").unwrap();
    assert_eq!(instance.num_resources, 3);
    assert_eq!(
        instance.capacities,
        vec![("R1".to_string(), 7), ("R2".to_string(), 10), ("R3".to_string(), 10)]
    );
}

#[test]
fn psplib_unparsable_header_values_fall_back() {
    let content = "jobs (incl. supersource/sink ):  many\nhorizon : soon\n";
    let instance = PsplibInstance::parse(content, "bad").unwrap();
    assert_eq!(instance.jobs, 0);
    assert_eq!(instance.horizon, 100);
    // The count is the number the field begins with; the unit follows it.
    let with_unit = PsplibInstance::parse("  - renewable  :  3   R\n", "unit").unwrap();
    assert_eq!(with_unit.num_resources, 3);
    let no_number = PsplibInstance::parse("  - renewable  :  R\n", "unit").unwrap();
    assert_eq!(no_number.num_resources, 4);
}

#[test]
fn psplib_renewable_count_is_read_before_its_unit() {
    let instance = PsplibInstance::parse("RESOURCES\n  - renewable                 :  2   R\n", "y").unwrap();
    assert_eq!(instance.num_resources, 2);
    assert_eq!(instance.capacities, vec![("R1".to_string(), 10), ("R2".to_string(), 10)]);
}

#[test]
fn optimal_solutions_are_named_by_parameter_and_instance() {
    let content = "Paramter  Instance  Makespan  CPU-Time[sec]\n 1 1 43 0.02\n 1 2 47 0.01\n\n 10 3 51 1.0\n 1 1 44 0.5\n";
    let solutions = parse_optimal_solutions(content);
    assert_eq!(solutions.len(), 3);
    assert_eq!(optimal_makespan(&solutions, "j301_1"), Some(44));
    assert_eq!(optimal_makespan(&solutions, "j301_2"), Some(47));
    assert_eq!(optimal_makespan(&solutions, "j3010_3"), Some(51));
    assert_eq!(optimal_makespan(&solutions, "j302_1"), None);
}

#[test]
fn unsigned_parsing_follows_std() {
    let p = |s: &str| parse_u32(&s.chars().collect::<Vec<char>>());
    assert_eq!(p("42"), Some(42));
    assert_eq!(p("+7"), Some(7));
    assert_eq!(p("007"), Some(7));
    assert_eq!(p("4294967295"), Some(u32::MAX));
    assert_eq!(p("4294967296"), None);
    assert_eq!(p(""), None);
    assert_eq!(p("+"), None);
    assert_eq!(p("-1"), None);
    assert_eq!(p("1.5"), None);
    for s in ["0", "+12", "12x", "99999999999", " 3"] {
        assert_eq!(p(s), s.parse::<u32>().ok());
    }
}

#[test]
fn section_order_is_checked() {
    assert!(sections_ordered(SAMPLE_PSPLIB));
    assert!(sections_ordered("no sections at all"));
    assert!(!sections_ordered("REQUESTS/DURATIONS:\nPRECEDENCE RELATIONS:\n"));
    assert!(!sections_ordered("RESOURCEAVAILABILITIES:\nREQUESTS/DURATIONS:\n"));
}

#[test]
fn instance_becomes_a_project() {
    let mut precedence = HashMap::new();
    precedence.insert(1u32, vec![2u32, 3]);
    precedence.insert(2u32, vec![3u32]);
    precedence.insert(3u32, vec![4u32]);
    let mut durations = HashMap::new();
    durations.insert(1u32, 0u32);
    durations.insert(3u32, 2u32);
    durations.insert(2u32, 3u32);
    durations.insert(4u32, 0u32);
    let mut demands = HashMap::new();
    demands.insert(2u32, vec![("R1".to_string(), 5u32)]);
    demands.insert(3u32, vec![("R2".to_string(), 3u32), ("R3".to_string(), 4u32)]);
    let instance = PsplibInstance {
        name: "x".to_string(),
        jobs: 4,
        num_resources: 2,
        horizon: 10,
        precedence,
        durations,
        demands,
        capacities: vec![("R1".to_string(), 10), ("R2".to_string(), 4)],
    };
    let project = instance.to_project();
    assert_eq!(project.id, "x");
    assert_eq!(project.name, "x");
    assert_eq!(project.calendar, "continuous");
    assert_eq!(project.calendars.len(), 1);
    assert_eq!(project.calendars[0].working_days, vec![0, 1, 2, 3, 4, 5, 6]);
    assert_eq!(project.resources.len(), 2);
    assert_eq!(project.resources[0].id, "r1");
    assert_eq!(project.resources[0].name, "R1");
    assert_eq!(project.resources[1].id, "r2");
    // Jobs of no duration are left out; the rest come in job order.
    assert_eq!(project.tasks.len(), 2);
    let j2 = &project.tasks[0];
    assert_eq!(j2.id, "j2");
    assert_eq!(j2.name, "Job 2");
    assert_eq!(j2.duration, Some(Duration::days(3)));
    assert!(j2.depends.is_empty());
    assert_eq!(j2.assigned.len(), 1);
    assert_eq!(j2.assigned[0].resource_id, "r1");
    assert_eq!(j2.assigned[0].units_percent, 50);
    let j3 = &project.tasks[1];
    assert_eq!(j3.id, "j3");
    assert_eq!(j3.depends.len(), 1);
    assert_eq!(j3.depends[0].predecessor, "j2");
    assert_eq!(j3.depends[0].dep_type, DependencyType::FinishToStart);
    assert_eq!(j3.assigned[0].resource_id, "r2");
    assert_eq!(j3.assigned[0].units_percent, 75);
    // A resource with no capacity entry has a capacity of 10.
    assert_eq!(j3.assigned[1].resource_id, "r3");
    assert_eq!(j3.assigned[1].units_percent, 40);
}
