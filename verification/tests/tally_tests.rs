use nougat::photon::PhotonEscape;
use nougat::tally::EscapeTally;

#[test]
fn a_run_counts_each_photon_once() {
    let escapes = vec![
        PhotonEscape::Top(2),
        PhotonEscape::Bottom(0),
        PhotonEscape::Top(5),
        PhotonEscape::Side(1),
        PhotonEscape::Bottom(3),
    ];
    let t = EscapeTally::from_escapes(&escapes);
    assert_eq!(
        t,
        EscapeTally { n_escaped_top: 2, n_escaped_bottom: 2, n_escaped_side: 1, total_scatters: 11 }
    );
    assert_eq!(t.n_escaped_top + t.n_escaped_bottom + t.n_escaped_side, escapes.len() as u32);
}

#[test]
fn an_empty_run_counts_nothing() {
    assert_eq!(EscapeTally::from_escapes(&Vec::new()), EscapeTally::new());
    assert_eq!(
        EscapeTally::new(),
        EscapeTally { n_escaped_top: 0, n_escaped_bottom: 0, n_escaped_side: 0, total_scatters: 0 }
    );
}

#[test]
fn the_order_of_photons_does_not_matter() {
    let escapes = vec![
        PhotonEscape::Side(4),
        PhotonEscape::Top(1),
        PhotonEscape::Top(9),
        PhotonEscape::Bottom(2),
    ];
    let mut reversed = escapes.clone();
    reversed.reverse();
    assert_eq!(EscapeTally::from_escapes(&escapes), EscapeTally::from_escapes(&reversed));
}

#[test]
fn total_scatters_wraps_around() {
    let escapes = vec![PhotonEscape::Top(u32::MAX), PhotonEscape::Bottom(2)];
    assert_eq!(EscapeTally::from_escapes(&escapes).total_scatters, 1);
}

#[test]
fn record_counts_one_photon() {
    let mut t = EscapeTally::new();
    t.record(PhotonEscape::Side(3));
    assert_eq!(t, EscapeTally { n_escaped_top: 0, n_escaped_bottom: 0, n_escaped_side: 1, total_scatters: 3 });
    let mut full = EscapeTally { n_escaped_top: u32::MAX, n_escaped_bottom: 0, n_escaped_side: 0, total_scatters: 0 };
    full.record(PhotonEscape::Top(0));
    assert_eq!(full.n_escaped_top, 0);
}
