use gba_tile_manager::domain::boop::{boops_name_of_file, Boop, Boops};
use gba_tile_manager::error::Error;

#[test]
fn roundtrip() {
    let mut boops = Boops::new("level01");

    let mut b0 = Boop::new(1, 2, 3, 4);
    b0.set_north(Some(10));
    b0.set_west(Some(20));
    b0.set_callback_index(Some(7));
    boops.boops.push(b0);

    let mut b1 = Boop::new(5, 6, 7, 8);
    b1.set_east(Some(30));
    b1.set_south(Some(40));
    b1.set_args(None, vec![0xAA, 0xBB, 0xCC]);
    boops.boops.push(b1);

    let mut b2 = Boop::new(9, 10, 11, 12);
    b2.set_north(Some(50));
    b2.set_east(Some(60));
    b2.set_south(Some(70));
    b2.set_west(Some(80));
    b2.set_args(None, vec![0x01, 0x02]);
    boops.boops.push(b2);

    let (boops_bin, args_bin) = boops.assign_args_indices_and_save().unwrap();

    let expected_bytes: Vec<[u8; 12]> = boops.boops.iter().map(|b| b.to_bytes()).collect();
    let expected_args: Vec<Vec<u8>> = boops.boops.iter().map(|b| b.actual_args().clone()).collect();

    let loaded = Boops::load("level01_boops.bin", &boops_bin, &args_bin).unwrap();

    assert_eq!(loaded.name, "level01");
    assert_eq!(loaded.boops.len(), 3);

    for (i, (boop, exp_bytes)) in loaded.boops.iter().zip(expected_bytes.iter()).enumerate() {
        assert_eq!(boop.to_bytes(), *exp_bytes, "boop[{i}] bytes mismatch");
        assert_eq!(*boop.actual_args(), expected_args[i], "boop[{i}] actual_args mismatch");
    }
}

/// Layout (centers marked with *):
///
///          [N]
///           *  (10,0)-(20,10)
///
///  [W]*          *[E]
/// (0,10)-(10,20)   (20,10)-(30,20)
///
///          [C]
///           *  (10,10)-(20,20)  <- center boop
///
///          [S]
///           *  (10,20)-(20,30)
#[test]
fn auto_fill_directions_cross() {
    let mut boops = Boops::new("test");

    // index 0: center
    boops.boops.push(Boop::new(10, 10, 20, 20));
    // index 1: north
    boops.boops.push(Boop::new(10, 0, 20, 10));
    // index 2: east
    boops.boops.push(Boop::new(20, 10, 30, 20));
    // index 3: south
    boops.boops.push(Boop::new(10, 20, 20, 30));
    // index 4: west
    boops.boops.push(Boop::new(0, 10, 10, 20));

    boops.auto_fill_directions();

    let c = &boops.boops[0];
    assert_eq!(c.north(), Some(1), "center -> north");
    assert_eq!(c.east(), Some(2), "center -> east");
    assert_eq!(c.south(), Some(3), "center -> south");
    assert_eq!(c.west(), Some(4), "center -> west");

    let n = &boops.boops[1];
    assert_eq!(n.north(), None, "north boop: nothing further north");
    assert_eq!(n.east(), Some(2), "north boop: east neighbour");
    assert_eq!(n.south(), Some(0), "north boop: south back to center");
    assert_eq!(n.west(), Some(4), "north boop: west neighbour");

    let e = &boops.boops[2];
    assert_eq!(e.north(), Some(1), "east boop: north neighbour");
    assert_eq!(e.east(), None, "east boop: nothing further east");
    assert_eq!(e.south(), Some(3), "east boop: south neighbour");
    assert_eq!(e.west(), Some(0), "east boop: west back to center");

    let s = &boops.boops[3];
    assert_eq!(s.north(), Some(0), "south boop: north back to center");
    assert_eq!(s.east(), Some(2), "south boop: east neighbour");
    assert_eq!(s.south(), None, "south boop: nothing further south");
    assert_eq!(s.west(), Some(4), "south boop: west neighbour");

    let w = &boops.boops[4];
    assert_eq!(w.north(), Some(1), "west boop: north neighbour");
    assert_eq!(w.east(), Some(0), "west boop: east back to center");
    assert_eq!(w.south(), Some(3), "west boop: south neighbour");
    assert_eq!(w.west(), None, "west boop: nothing further west");
}

#[test]
fn boop_flags_follow_options() {
    let mut b = Boop::new(1, 2, 3, 4);
    assert_eq!(b.flags(), 0);
    b.set_north(Some(3));
    b.set_west(Some(9));
    assert_eq!(b.north(), Some(3));
    assert_eq!(b.west(), Some(9));
    let bytes = b.to_bytes();
    assert_eq!(&bytes[..4], &[1, 2, 3, 4]);
    b.set_north(None);
    assert_eq!(b.north(), None);
}

#[test]
fn args_indices_are_assigned_in_order() {
    let mut boops = Boops::new("args");
    let mut a = Boop::new(0, 0, 1, 1);
    a.set_args(None, vec![1, 2, 3]);
    boops.boops.push(a);
    boops.boops.push(Boop::new(2, 2, 3, 3));
    let mut c = Boop::new(4, 4, 5, 5);
    c.set_args(None, vec![4, 5]);
    boops.boops.push(c);
    let (bin, args) = boops.assign_args_indices_and_save().unwrap();
    assert_eq!(bin.len(), 36);
    assert_eq!(args, vec![1, 2, 3, 4, 5]);
    assert_eq!(boops.boops[0].args_index(), Some(0));
    assert_eq!(boops.boops[1].args_index(), None);
    assert_eq!(boops.boops[2].args_index(), Some(3));
}

#[test]
fn args_past_255_overflow() {
    let mut boops = Boops::new("big");
    let mut a = Boop::new(0, 0, 1, 1);
    a.set_args(None, vec![7; 200]);
    boops.boops.push(a);
    let mut b = Boop::new(0, 0, 1, 1);
    b.set_args(None, vec![8; 100]);
    boops.boops.push(b);
    assert!(matches!(boops.assign_args_indices_and_save(), Err(Error::ArgsIndexOverflow)));
}

#[test]
fn from_data_refuses_partial_boops() {
    assert!(matches!(Boops::from_data("x", &[0u8; 13], &[]), Err(Error::BoopsFileSize(13))));
    let empty = Boops::from_data("x", &[], &[]).unwrap();
    assert_eq!(empty.boops.len(), 0);
}

#[test]
fn auto_fill_prefers_closer_boop() {
    let mut boops = Boops::new("near");
    boops.boops.push(Boop::new(0, 0, 2, 2));
    boops.boops.push(Boop::new(10, 0, 12, 2));
    boops.boops.push(Boop::new(4, 0, 6, 2));
    boops.auto_fill_directions();
    assert_eq!(boops.boops[0].east(), Some(2));
    assert_eq!(boops.boops[0].west(), None);
    assert_eq!(boops.boops[1].west(), Some(2));
}

#[test]
fn boops_name_strips_suffix() {
    assert_eq!(boops_name_of_file("level01_boops.bin"), Some("level01".to_string()));
    assert_eq!(boops_name_of_file("a_boops.bin_boops.bin"), Some("a_boops.bin".to_string()));
    assert_eq!(boops_name_of_file("_boops.bin"), Some(String::new()));
    assert_eq!(boops_name_of_file("level01_boops_args.bin"), None);
    assert_eq!(boops_name_of_file("boops.bin"), None);
    assert_eq!(boops_name_of_file(""), None);
}

#[test]
fn load_names_boops_by_file() {
    let mut boops = Boops::new("level01");
    let mut b0 = Boop::new(1, 2, 3, 4);
    b0.set_north(Some(1));
    b0.set_args(None, vec![7, 8]);
    boops.boops.push(b0);
    let (boops_bin, args_bin) = boops.assign_args_indices_and_save().unwrap();
    let loaded = Boops::load("level01_boops.bin", &boops_bin, &args_bin).unwrap();
    assert_eq!(loaded.name, "level01");
    assert_eq!(loaded.boops.len(), 1);
    assert_eq!(loaded.boops[0].to_bytes(), boops.boops[0].to_bytes());
    assert_eq!(*loaded.boops[0].actual_args(), vec![7, 8]);
}

#[test]
fn load_refuses_bad_name_then_bad_size() {
    match Boops::load("level01.bin", &[0u8; 13], &[]) {
        Err(Error::BoopsFileName(n)) => assert_eq!(n, "level01.bin"),
        _ => panic!("expected a file name error"),
    }
    assert!(matches!(Boops::load("x_boops.bin", &[0u8; 13], &[]), Err(Error::BoopsFileSize(13))));
    assert_eq!(Boops::load("x_boops.bin", &[], &[]).unwrap().name, "x");
}
