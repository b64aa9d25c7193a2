use polysynth::{find_port, DEVICE};

fn names(list: &[Option<&str>]) -> Vec<Option<String>> {
    list.iter().map(|name| name.map(String::from)).collect()
}

#[test]
fn device_name_is_boutique() {
    assert_eq!(DEVICE, "Boutique");
}

#[test]
fn find_port_takes_the_first_name_that_holds_the_device() {
    let ports = names(&[
        Some("Midi Through Port-0"),
        Some("Roland Boutique JU-06A"),
        Some("Boutique"),
    ]);
    assert_eq!(find_port(&ports, DEVICE), Some(1));
}

#[test]
fn find_port_passes_over_ports_without_a_name() {
    let ports = names(&[None, Some("Through"), None, Some("My Boutique"), None]);
    assert_eq!(find_port(&ports, DEVICE), Some(3));
}

#[test]
fn find_port_finds_nothing_where_no_name_matches() {
    assert_eq!(find_port(&names(&[]), DEVICE), None);
    assert_eq!(find_port(&names(&[None, None]), DEVICE), None);
    let ports = names(&[Some("boutique"), Some("Boutiqu"), Some("B outique"), Some("")]);
    assert_eq!(find_port(&ports, DEVICE), None);
}

#[test]
fn find_port_matches_at_the_start_the_middle_and_the_end() {
    assert_eq!(find_port(&names(&[Some("Boutique X")]), DEVICE), Some(0));
    assert_eq!(find_port(&names(&[Some("X Boutique X")]), DEVICE), Some(0));
    assert_eq!(find_port(&names(&[Some("X Boutique")]), DEVICE), Some(0));
}

#[test]
fn find_port_with_another_device_name() {
    let ports = names(&[Some("Boutique"), Some("Kéyboard ünit"), Some("Keys")]);
    assert_eq!(find_port(&ports, "ünit"), Some(1));
    assert_eq!(find_port(&ports, "Key"), Some(2));
    // The empty name occurs in every name, and in none of a port without one.
    assert_eq!(find_port(&ports, ""), Some(0));
    assert_eq!(find_port(&names(&[None, Some("")]), ""), Some(1));
}
