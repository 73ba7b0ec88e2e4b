use wslscript::distro::{DistroGUID, Distros};
use wslscript::registry::query_distros;
use wslscript::store::{RegVal, RegistryData};

fn lxss_base() -> Vec<String> {
    vec![
        "Software".to_owned(),
        "Microsoft".to_owned(),
        "Windows".to_owned(),
        "CurrentVersion".to_owned(),
        "Lxss".to_owned(),
    ]
}

fn lxss_key(guid: &str) -> Vec<String> {
    let mut p = lxss_base();
    p.push(guid.to_owned());
    p
}

#[test]
fn guid_parsing_canonicalizes() {
    let g = DistroGUID::from_str("{12345678-90AB-CDEF-1234-567890ABCDEF}").unwrap();
    assert_eq!(g.to_string(), "{12345678-90ab-cdef-1234-567890abcdef}");
    // braces are optional on input
    let g2 = DistroGUID::from_str("12345678-90ab-cdef-1234-567890abcdef").unwrap();
    assert!(g.same(&g2));
}

#[test]
fn guid_parsing_rejects_malformed() {
    assert!(DistroGUID::from_str("").is_none());
    assert!(DistroGUID::from_str("{12345678-90ab-cdef-1234-567890abcde}").is_none());
    assert!(DistroGUID::from_str("12345678-90ab-cdef-1234-567890abcdeg").is_none());
    assert!(DistroGUID::from_str("1234567890abcdef1234567890abcdef").is_none());
}

#[test]
fn query_distros_reads_snapshot() {
    let mut store = RegistryData::new_empty();
    let g1 = "{11111111-1111-1111-1111-111111111111}";
    let g2 = "{22222222-2222-2222-2222-222222222222}";
    store.set_value(&lxss_key(g1), "DistributionName", RegVal::Str("Ubuntu".to_owned()));
    store.set_value(&lxss_key(g2), "DistributionName", RegVal::Str("Debian".to_owned()));
    store.set_value(&lxss_base(), "DefaultDistribution", RegVal::Str(g2.to_owned()));
    let d = query_distros(&store).unwrap();
    assert_eq!(d.list.len(), 2);
    assert_eq!(d.default.as_ref().map(|g| g.to_string()).as_deref(), Some(g2));
}

#[test]
fn sorted_pairs_default_first_then_by_name() {
    let mut d = Distros::new_empty();
    let g1 = DistroGUID::from_str("{11111111-1111-1111-1111-111111111111}").unwrap();
    let g2 = DistroGUID::from_str("{22222222-2222-2222-2222-222222222222}").unwrap();
    let g3 = DistroGUID::from_str("{33333333-3333-3333-3333-333333333333}").unwrap();
    d.insert(g1.clone(), "Zeta".to_owned());
    d.insert(g2.clone(), "Alpha".to_owned());
    d.insert(g3.clone(), "Beta".to_owned());
    d.default = Some(g3.clone());
    let pairs = d.sorted_pairs();
    let names: Vec<&str> = pairs.iter().map(|p| p.1.as_str()).collect();
    assert_eq!(names, vec!["Beta", "Alpha", "Zeta"]);
    assert!(pairs[0].0.same(&g3));
}

#[test]
fn sorted_pairs_without_default() {
    let mut d = Distros::new_empty();
    let g1 = DistroGUID::from_str("{11111111-1111-1111-1111-111111111111}").unwrap();
    let g2 = DistroGUID::from_str("{22222222-2222-2222-2222-222222222222}").unwrap();
    d.insert(g1, "openSUSE".to_owned());
    d.insert(g2, "Alpine".to_owned());
    let pairs = d.sorted_pairs();
    let names: Vec<&str> = pairs.iter().map(|p| p.1.as_str()).collect();
    assert_eq!(names, vec!["Alpine", "openSUSE"]);
}

#[test]
fn insert_replaces_by_identifier() {
    let mut d = Distros::new_empty();
    let g = DistroGUID::from_str("{11111111-1111-1111-1111-111111111111}").unwrap();
    d.insert(g.clone(), "Old".to_owned());
    d.insert(g, "New".to_owned());
    assert_eq!(d.list.len(), 1);
    assert_eq!(d.list[0].1, "New");
}
