use gba_tile_manager::color::Color;
use gba_tile_manager::domain::map::CharacterData;
use gba_tile_manager::domain::order::names_in_order;
use gba_tile_manager::domain::palette::Palette;
use gba_tile_manager::domain::project::Project;
use gba_tile_manager::domain::screen::ScreenData;
use gba_tile_manager::savable::Savable;

#[test]
fn items_are_found_by_name() {
    let mut project = Project::new("/tmp/project".to_string());
    assert_eq!(project.path(), "/tmp/project");
    project.add_palette("a");
    project.add_palette("b");
    project.add_palette("a");
    assert_eq!(project.palette_names(), vec!["a".to_string(), "b".to_string(), "a".to_string()]);
    assert_eq!(project.palette("b").unwrap().name(), "b");
    assert!(project.palette("c").is_none());
    project.palette_mut("a").unwrap().set_color(0, Color::new(1, 1, 1).unwrap());
    assert_eq!(project.palette("a").unwrap().len(), 1);
    assert_eq!(project.palette_names().len(), 3);

    project.add_character_data("tiles");
    assert_eq!(project.character_data_names(), vec!["tiles".to_string()]);
    assert_eq!(project.character_data("tiles").unwrap().len(), 0);
    assert!(project.character_data_mut("other").is_none());

    project.add_screen_data("screen");
    assert_eq!(project.screen_names(), vec!["screen".to_string()]);
    assert!(project.screen_data("screen").is_some());
    assert!(project.screen_data_mut("screen").is_some());

    project.add_boop_data("level");
    assert_eq!(project.boop_names(), vec!["level".to_string()]);
    project.boop_data_mut("level").unwrap().boops.push(gba_tile_manager::domain::boop::Boop::new(1, 2, 3, 4));
    assert_eq!(project.boop_data("level").unwrap().boops.len(), 1);
    assert!(project.boop_data("none").is_none());
}

#[test]
fn loaded_items_are_sorted_by_name() {
    let palettes = vec![Palette::new("b"), Palette::new("a"), Palette::new("ab"), Palette::new("a")];
    let project = Project::from_parts(
        "dir".to_string(),
        palettes,
        vec![CharacterData::new("z"), CharacterData::new("y")],
        vec![ScreenData::new("m")],
        vec![],
    );
    assert_eq!(project.palette_names(), vec!["a".to_string(), "a".to_string(), "ab".to_string(), "b".to_string()]);
    assert_eq!(project.character_data_names(), vec!["y".to_string(), "z".to_string()]);
    assert_eq!(project.screen_names(), vec!["m".to_string()]);
    assert!(names_in_order("a", "ab"));
    assert!(!names_in_order("b", "ab"));
    assert!(names_in_order("", ""));
}

#[test]
fn project_from_directory_files() {
    let mut boops = gba_tile_manager::domain::boop::Boops::new("lvl");
    let mut b = gba_tile_manager::domain::boop::Boop::new(1, 2, 3, 4);
    b.set_args(None, vec![5, 6]);
    boops.boops.push(b);
    let (boops_bin, args_bin) = boops.assign_args_indices_and_save().unwrap();
    let files: Vec<(String, Vec<u8>)> = vec![
        ("z_palette.bin".to_string(), vec![0x1f, 0x00]),
        ("lvl_boops.bin".to_string(), boops_bin.clone()),
        ("a_palette.bin".to_string(), vec![0xe0, 0x03, 0x00, 0x7c]),
        ("tiles_character_data.bin".to_string(), vec![0x12; 32]),
        ("notes.txt".to_string(), vec![1, 2, 3]),
        ("bad_boops.bin".to_string(), vec![0; 5]),
        ("lvl_boops_args.bin".to_string(), args_bin),
        ("main_screen_data.bin".to_string(), vec![3, 0, 4, 0]),
    ];
    let project = Project::from_files("/tmp/p".to_string(), &files);
    assert_eq!(project.path(), "/tmp/p");
    assert_eq!(project.palette_names(), vec!["a".to_string(), "z".to_string()]);
    assert_eq!(project.palette("a").unwrap().len(), 2);
    assert_eq!(project.palette("a").unwrap().get(1), Some(&Color::new(0, 0, 31).unwrap()));
    assert_eq!(project.palette("z").unwrap().get(0), Some(&Color::new(31, 0, 0).unwrap()));
    assert_eq!(project.character_data_names(), vec!["tiles".to_string()]);
    assert_eq!(project.character_data("tiles").unwrap().len(), 1);
    assert_eq!(project.screen_names(), vec!["main".to_string()]);
    assert_eq!(project.screen_data("main").unwrap().get_character(1, 0).tile_number(), 4);
    assert_eq!(project.boop_names(), vec!["lvl".to_string()]);
    let loaded = project.boop_data("lvl").unwrap();
    assert_eq!(loaded.boops.len(), 1);
    assert_eq!(*loaded.boops[0].actual_args(), vec![5, 6]);
}

#[test]
fn project_from_no_files_is_empty() {
    let project = Project::from_files("d".to_string(), &[]);
    assert!(project.palette_names().is_empty());
    assert!(project.boop_names().is_empty());
}

#[test]
fn saved_project_reads_back() {
    let mut project = Project::new("/tmp/q".to_string());
    project.add_palette("warm");
    project.palette_mut("warm").unwrap().set_color(1, Color::new(3, 4, 5).unwrap());
    project.add_palette("cold");
    project.add_character_data("chars");
    project.add_screen_data("title");
    project.add_boop_data("level");
    {
        let level = project.boop_data_mut("level").unwrap();
        let mut b = gba_tile_manager::domain::boop::Boop::new(1, 2, 3, 4);
        b.set_north(Some(0));
        b.set_args(None, vec![5, 6]);
        level.boops.push(b);
        level.assign_args_indices_and_save().unwrap();
    }
    let files = project.to_files();
    let names: Vec<&str> = files.iter().map(|f| f.0.as_str()).collect();
    assert_eq!(
        names,
        vec![
            "warm_palette.bin",
            "cold_palette.bin",
            "chars_character_data.bin",
            "title_screen_data.bin",
            "level_boops.bin",
            "level_boops_args.bin",
        ]
    );
    let back = Project::from_files("/tmp/q".to_string(), &files);
    assert_eq!(back.palette_names(), vec!["cold".to_string(), "warm".to_string()]);
    assert_eq!(back.palette("warm").unwrap().len(), 2);
    assert_eq!(back.palette("warm").unwrap().get(1), Some(&Color::new(3, 4, 5).unwrap()));
    assert_eq!(back.character_data_names(), vec!["chars".to_string()]);
    assert_eq!(back.screen_names(), vec!["title".to_string()]);
    assert_eq!(back.boop_names(), vec!["level".to_string()]);
    let level = back.boop_data("level").unwrap();
    assert_eq!(level.boops.len(), 1);
    assert_eq!(level.boops[0].north(), Some(0));
    assert_eq!(level.boops[0].args_index(), Some(0));
    assert_eq!(*level.boops[0].actual_args(), vec![5, 6]);
}
