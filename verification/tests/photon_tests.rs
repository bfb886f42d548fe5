use nougat::photon::{ActiveClumps, Photon, PhotonEscape, SeenClumps};

#[test]
fn a_new_photon_has_not_scattered() {
    let photon = Photon::new((1, 2));
    assert_eq!(photon.n_scatters, 0);
    assert_eq!(photon.ray, (1, 2));
}

#[test]
fn scattering_replaces_the_ray_and_counts() {
    let mut photon = Photon::new("first");
    photon.scatter("second");
    photon.scatter("third");
    assert_eq!(photon.ray, "third");
    assert_eq!(photon.n_scatters, 2);
}

#[test]
fn escape_through_the_side_comes_first() {
    let mut photon = Photon::new(());
    photon.scatter(());
    assert_eq!(photon.escape(true, true), PhotonEscape::Side(1));
    assert_eq!(photon.escape(true, false), PhotonEscape::Side(1));
    assert_eq!(photon.escape(false, true), PhotonEscape::Top(1));
    assert_eq!(photon.escape(false, false), PhotonEscape::Bottom(1));
}

#[test]
fn escapes_carry_their_scatter_count() {
    assert_eq!(PhotonEscape::Top(3).n_scatters(), 3);
    assert_eq!(PhotonEscape::Bottom(0).n_scatters(), 0);
    assert_eq!(PhotonEscape::Side(7).n_scatters(), 7);
}

#[test]
fn each_clump_is_offered_once() {
    let mut seen = SeenClumps::new(5);
    assert_eq!(seen.seen, vec![false; 5]);
    assert_eq!(seen.take_unseen(&vec![3, 1, 3]), vec![3, 1]);
    assert_eq!(seen.take_unseen(&vec![1, 4, 0, 4]), vec![4, 0]);
    assert_eq!(seen.take_unseen(&vec![0, 1, 3, 4]), Vec::<usize>::new());
    assert_eq!(seen.take_unseen(&vec![]), Vec::<usize>::new());
    assert_eq!(seen.seen, vec![true, true, false, true, true]);
}

#[test]
fn active_clumps_follow_entries_and_exits() {
    let mut active = ActiveClumps::new();
    assert!(active.is_empty());
    active.enter(2);
    active.enter(5);
    active.enter(7);
    assert_eq!(active.members, vec![2, 5, 7]);
    active.exit(5);
    assert_eq!(active.members, vec![2, 7]);
    active.exit(9);
    assert_eq!(active.members, vec![2, 7]);
    active.exit(2);
    active.exit(7);
    assert!(active.is_empty());
}

#[test]
fn exit_removes_every_entry_of_a_clump() {
    let mut active = ActiveClumps::new();
    active.enter(1);
    active.enter(4);
    active.enter(1);
    active.exit(1);
    assert_eq!(active.members, vec![4]);
}

#[test]
fn entering_then_leaving_restores_the_active_clumps() {
    let mut active = ActiveClumps::new();
    active.enter(3);
    active.enter(8);
    let before = active.members.clone();
    active.enter(6);
    active.exit(6);
    assert_eq!(active.members, before);
}
