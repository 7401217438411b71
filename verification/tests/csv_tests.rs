use gba_tile_manager::boop::{Boop, BoopBytes, Boops};
use gba_tile_manager::error::Error;
use gba_tile_manager::project::csv::{BoopCsv, BoopRecord, is_boops_header};

#[test]
fn try_from_string() {
    let s = "1,2,3,4,5,6".to_string();
    let _: BoopRecord = BoopRecord::try_from(s).unwrap();
    let s = "1,2,3,4,,6|7".to_string();
    let _: BoopRecord = BoopRecord::try_from(s).unwrap();
    let s = "1,2,3,4,,".to_string();
    let _: BoopRecord = BoopRecord::try_from(s).unwrap();
}

#[test]
fn record_fields_are_parsed() {
    let r = BoopRecord::try_from(" 1, 2 ,30,4 ,255, 6|7|89".to_string()).unwrap();
    assert_eq!((r.x, r.y, r.w, r.h), (1, 2, 30, 4));
    assert_eq!(r.callback, Some(255));
    assert_eq!(r.args, vec![6, 7, 89]);
    let r = BoopRecord::try_from("1,2,3,4,,".to_string()).unwrap();
    assert_eq!(r.callback, None);
    assert!(r.args.is_empty());
}

#[test]
fn record_errors() {
    assert!(matches!(BoopRecord::try_from("1,2,3".to_string()), Err(Error::RecordFormat)));
    assert!(matches!(BoopRecord::try_from("1,2,3,,5,6".to_string()), Err(Error::RecordFormat)));
    assert!(matches!(BoopRecord::try_from("1,2,3,4,5,|6".to_string()), Err(Error::RecordFormat)));
    assert!(matches!(BoopRecord::try_from("a,2,3,4,5,6".to_string()), Err(Error::RecordFormat)));
    assert!(matches!(BoopRecord::try_from("256,2,3,4,5,6".to_string()), Err(Error::ParseInt)));
    assert!(matches!(BoopRecord::try_from("1,2,3,4,5,6|".to_string()), Err(Error::ParseInt)));
    assert!(matches!(BoopRecord::try_from("1,2,3,4,300,6".to_string()), Err(Error::ParseInt)));
}

#[test]
fn header_check_ignores_spaces() {
    assert!(is_boops_header("x,y,w,h,callback,args"));
    assert!(is_boops_header(" x, y, w, h, callback, args "));
    assert!(!is_boops_header("x,y,w,h,callback"));
    assert!(!is_boops_header("x;y;w;h;callback;args"));
}

#[test]
fn boops_from_csv_pick_neighbours() {
    let records = vec![
        BoopRecord::try_from("10,10,10,10,,".to_string()).unwrap(),
        BoopRecord::try_from("10,0,10,10,1,".to_string()).unwrap(),
        BoopRecord::try_from("20,10,10,10,,5|6".to_string()).unwrap(),
    ];
    let csv = BoopCsv::new("level", records);
    assert_eq!(csv.name(), "level");
    let boops = Boops::from(csv);
    assert_eq!(boops.name(), "level");
    assert_eq!(boops.boops.len(), 3);
    let (bin, args) = boops.as_data();
    assert_eq!(bin.len(), 33);
    // center boop: north is 1, east is 2, nothing south or west
    assert_eq!(&bin[0..11], &[10, 10, 10, 10, 1, 2, 255, 255, 255, 0, 0]);
    assert_eq!(args, vec![5, 6]);
}

#[test]
fn saved_boops_read_back() {
    let records = vec![
        BoopRecord::try_from("0,0,4,4,,1|2|3".to_string()).unwrap(),
        BoopRecord::try_from("8,0,4,4,7,".to_string()).unwrap(),
        BoopRecord::try_from("16,0,4,4,,9".to_string()).unwrap(),
    ];
    let boops = Boops::from(BoopCsv::new("row", records));
    let (bin, args) = boops.as_data();
    assert_eq!(args, vec![1, 2, 3, 9]);
    let b0: [u8; 11] = bin[0..11].try_into().unwrap();
    let b2: [u8; 11] = bin[22..33].try_into().unwrap();
    let first = Boop::from_bytes(&b0, &args);
    let third = Boop::from_bytes(&b2, &args);
    assert_eq!(b0[9], 0);
    assert_eq!(b0[10], 3);
    assert_eq!(b2[9], 3);
    assert_eq!(b2[10], 1);
    assert_eq!(&bin[11..22], &[8, 0, 4, 4, 255, 2, 255, 0, 7, 0, 0]);
    let _ = (first, third);
}

#[test]
fn missing_neighbours_read_back_as_none() {
    let record = BoopRecord::try_from("3,4,5,6,,5|6".to_string()).unwrap();
    let boop = Boop::new(&record, None, None, None, None);
    let mut args = vec![9u8];
    let bytes = BoopBytes::new(&boop, &mut args).as_bytes();
    assert_eq!(bytes, vec![3, 4, 5, 6, 255, 255, 255, 255, 255, 1, 2]);
    let arr: [u8; 11] = bytes[..].try_into().unwrap();
    assert_eq!(Boop::from_bytes(&arr, &args), boop);
}

#[test]
fn present_neighbours_read_back() {
    let record = BoopRecord::try_from("3,4,5,6,7,".to_string()).unwrap();
    let boop = Boop::new(&record, Some(0), Some(2), None, Some(254));
    let mut args = Vec::new();
    let bytes = BoopBytes::new(&boop, &mut args).as_bytes();
    assert_eq!(bytes, vec![3, 4, 5, 6, 0, 2, 255, 254, 7, 0, 0]);
    let arr: [u8; 11] = bytes[..].try_into().unwrap();
    assert_eq!(Boop::from_bytes(&arr, &args), boop);
}

#[test]
fn byte_255_reads_as_none() {
    let read = Boop::from_bytes(&[1, 2, 3, 4, 255, 7, 255, 255, 255, 0, 0], &[]);
    let record = BoopRecord::try_from("1,2,3,4,,".to_string()).unwrap();
    assert_eq!(read, Boop::new(&record, None, Some(7), None, None));
}
