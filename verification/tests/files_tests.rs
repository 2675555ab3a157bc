use entangled_worlds::color::{write_color_rgb_with_mask_to_image, write_overlay_to_image, RgbaImage};
use entangled_worlds::mod_files::{names_in_file, status_effect_ids};

#[test]
fn declared_names_are_read_in_order() {
    let content = "<a name=\"first\" x=\"1\"/>\n<b name=\"second\"/>";
    assert_eq!(names_in_file(content), vec!["first".to_string(), "second".to_string()]);
    assert!(names_in_file("nothing declared").is_empty());
    assert_eq!(names_in_file("name=\"\""), vec![String::new()]);
}

#[test]
fn masks_and_overlays() {
    let mask = RgbaImage { width: 2, height: 1, pixels: vec![[255, 255, 255, 0], [255, 0, 255, 255]] };
    let mut target = RgbaImage { width: 2, height: 1, pixels: vec![[1, 2, 3, 4], [5, 6, 7, 8]] };
    write_color_rgb_with_mask_to_image([9, 9, 9, 9], &mask, &mut target);
    assert_eq!(target.pixels, vec![[9, 9, 9, 4], [5, 6, 7, 8]]);
    let overlay = RgbaImage { width: 2, height: 1, pixels: vec![[0, 0, 0, 0], [1, 1, 1, 1]] };
    write_overlay_to_image(&overlay, &mut target);
    assert_eq!(target.pixels, vec![[9, 9, 9, 4], [1, 1, 1, 1]]);
}

#[test]
fn status_ids_are_read_from_the_list() {
    let file = "-- comment id=\"NOPE\"\n{ id=\"WET\",\r\n  ui=\"x\"\n{ id=\"BRAIN_DAMAGE\"\n{ id=\"ON_FIRE\", name=\"y\"\n";
    assert_eq!(status_effect_ids(file), vec!["WET".to_string(), "ON_FIRE".to_string()]);
    assert!(status_effect_ids("").is_empty());
    assert_eq!(status_effect_ids("id=\"LAST"), vec!["LAST".to_string()]);
}
