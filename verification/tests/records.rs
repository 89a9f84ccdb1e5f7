use dvh::{DoseType, Dvh, DvhCheck, DvhMap, Error, Name, Patient, Plan, VolumeType};

fn histogram(samples: &[(f64, f64)]) -> Dvh {
    let mut dvh = Dvh::new(DoseType::Gy, VolumeType::Percent);
    for (dose, volume) in samples {
        assert!(dvh.add(dose.to_bits(), volume.to_bits()));
    }
    dvh
}

fn doses(dvh: &Dvh) -> Vec<f64> {
    dvh.doses().into_iter().map(f64::from_bits).collect()
}

fn volumes(dvh: &Dvh) -> Vec<f64> {
    dvh.volumes().into_iter().map(f64::from_bits).collect()
}

fn names(dvhs: &DvhMap) -> Vec<String> {
    dvhs.entries().iter().map(|entry| entry.0.clone()).collect()
}

fn three_structures() -> DvhMap {
    let mut dvhs = DvhMap::new();
    assert!(dvhs.insert("PTV".to_string(), histogram(&[(20.0, 0.5), (0.0, 1.0), (10.0, 0.9)])).is_none());
    assert!(dvhs.insert("Rectum".to_string(), histogram(&[(0.0, 1.0), (40.0, 0.0)])).is_none());
    assert!(dvhs.insert("Bladder".to_string(), Dvh::default()).is_none());
    dvhs
}

#[test]
fn new_collection_is_empty() {
    let dvhs = DvhMap::new();
    assert!(dvhs.is_empty());
    assert_eq!(dvhs.len(), 0);
    assert!(dvhs.get("PTV").is_none());
    assert!(!dvhs.contains_key("PTV"));
    assert!(dvhs.entries().is_empty());
    assert_eq!(dvhs, DvhMap::default());
}

#[test]
fn insert_holds_each_histogram_under_its_name() {
    let dvhs = three_structures();
    assert_eq!(dvhs.len(), 3);
    assert!(!dvhs.is_empty());
    assert!(dvhs.contains_key("PTV"));
    assert!(dvhs.contains_key("Rectum"));
    assert!(dvhs.contains_key("Bladder"));
    assert!(!dvhs.contains_key("ptv"));
    assert!(!dvhs.contains_key("PT"));
    assert!(!dvhs.contains_key("PTVs"));
    assert!(!dvhs.contains_key(""));
    assert_eq!(doses(dvhs.get("PTV").unwrap()), vec![20.0, 0.0, 10.0]);
    assert_eq!(doses(dvhs.get("Rectum").unwrap()), vec![0.0, 40.0]);
    assert!(dvhs.get("Bladder").unwrap().is_empty());
    assert!(dvhs.get("Heart").is_none());
}

#[test]
fn insert_under_a_held_name_takes_the_place_of_the_old_histogram() {
    let mut dvhs = three_structures();
    let was = dvhs.insert("PTV".to_string(), histogram(&[(1.0, 1.0)]));
    assert_eq!(doses(&was.unwrap()), vec![20.0, 0.0, 10.0]);
    assert_eq!(dvhs.len(), 3);
    assert_eq!(doses(dvhs.get("PTV").unwrap()), vec![1.0]);
    assert_eq!(doses(dvhs.get("Rectum").unwrap()), vec![0.0, 40.0]);
    assert!(dvhs.get("Bladder").unwrap().is_empty());
    assert_eq!(names(&dvhs), vec!["Bladder", "PTV", "Rectum"]);
}

#[test]
fn entries_stand_in_the_order_of_their_names() {
    let mut dvhs = DvhMap::new();
    for name in ["b", "", "ab", "a", "B", "abc", "é", "z", "aa", "~"] {
        assert!(dvhs.insert(name.to_string(), Dvh::default()).is_none());
    }
    assert_eq!(names(&dvhs), vec!["", "B", "a", "aa", "ab", "abc", "b", "z", "~", "é"]);
    let mut sorted = names(&dvhs);
    sorted.sort();
    assert_eq!(names(&dvhs), sorted);
    for name in names(&dvhs) {
        assert!(dvhs.contains_key(&name));
    }
    assert!(!dvhs.contains_key("abcd"));
    assert!(!dvhs.contains_key("A"));
}

#[test]
fn collections_are_equal_whatever_the_order_of_filling() {
    let mut forward = DvhMap::new();
    let mut backward = DvhMap::new();
    let structures = ["PTV", "Rectum", "Bladder", "Heart"];
    for (k, name) in structures.iter().enumerate() {
        forward.insert(name.to_string(), histogram(&[(k as f64, 0.5)]));
    }
    for (k, name) in structures.iter().enumerate().rev() {
        backward.insert(name.to_string(), histogram(&[(k as f64, 0.5)]));
    }
    assert_eq!(forward, backward);
    assert_eq!(forward.clone(), backward);
    backward.insert("Heart".to_string(), histogram(&[(3.0, 0.25)]));
    assert_ne!(forward, backward);
}

#[test]
fn plan_check_sorts_every_histogram() {
    let mut plan = Plan {
        id: "PLAN001".to_string(),
        name: Some("Treatment Plan 1".to_string()),
        dvhs: three_structures(),
    };
    assert_eq!(plan.dvh_check(), Ok(()));
    assert_eq!(plan.id, "PLAN001");
    assert_eq!(plan.name.as_deref(), Some("Treatment Plan 1"));
    assert_eq!(plan.dvhs.len(), 3);
    assert_eq!(names(&plan.dvhs), vec!["Bladder", "PTV", "Rectum"]);
    for (_, dvh) in plan.dvhs.entries() {
        assert!(dvh.is_sorted());
    }
    let ptv = plan.dvhs.get("PTV").unwrap();
    assert_eq!(doses(ptv), vec![0.0, 10.0, 20.0]);
    assert_eq!(volumes(ptv), vec![1.0, 0.9, 0.5]);
    assert_eq!(doses(plan.dvhs.get("Rectum").unwrap()), vec![0.0, 40.0]);
    assert!(plan.dvhs.get("Bladder").unwrap().is_empty());
    assert!(ptv.vx(15.0f64.to_bits()).is_ok());
    assert_eq!(plan.dvhs.get("Bladder").unwrap().vx(15.0f64.to_bits()), Err(Error::DvhNoData));
}

#[test]
fn collection_check_sorts_every_histogram() {
    let mut dvhs = three_structures();
    assert_eq!(dvhs.dvh_check(), Ok(()));
    assert_eq!(dvhs.len(), 3);
    assert_eq!(doses(dvhs.get("PTV").unwrap()), vec![0.0, 10.0, 20.0]);
    assert!(dvhs.entries().iter().all(|entry| entry.1.is_sorted()));
}

#[test]
fn plan_check_of_no_histograms_succeeds() {
    let mut plan = Plan::default();
    assert_eq!(plan.dvh_check(), Ok(()));
    assert_eq!(plan, Plan::default());
}

#[test]
fn default_records_are_empty() {
    let plan = Plan::default();
    assert_eq!(plan.id, "");
    assert_eq!(plan.name, None);
    assert!(plan.dvhs.is_empty());
    let patient = Patient::default();
    assert_eq!(patient.patient_id, "");
    assert_eq!(patient.name, None);
    assert!(patient.plans.is_empty());
}

#[test]
fn patient_holds_name_and_plans() {
    let mut dvhs = DvhMap::new();
    dvhs.insert("PTV".to_string(), Dvh::default());
    let patient = Patient {
        patient_id: "P12345".to_string(),
        name: Some(Name::from_dicom("Doe^John^Michael^Dr.^Jr.")),
        plans: vec![Plan { id: "PLAN001".to_string(), name: None, dvhs }],
    };
    let copy = patient.clone();
    assert_eq!(copy, patient);
    assert_eq!(copy.name.as_ref().map(|name| name.last.as_str()), Some("Doe"));
    assert!(copy.plans[0].dvhs.contains_key("PTV"));
}
