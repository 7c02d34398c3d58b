use nameforge::utils::{
    create_date_folder_path, extract_date_part, generate_filename_with_counter,
    normalize_filename_with_extension, unique_filename,
};

fn names(list: &[&str]) -> Vec<String> {
    list.iter().map(|s| s.to_string()).collect()
}

#[test]
fn free_name_is_used_as_it_is() {
    assert_eq!(unique_filename(&names(&[]), "2024-01-01_Paris", "jpg"), Some("2024-01-01_Paris.jpg".to_string()));
    assert_eq!(
        unique_filename(&names(&["other.jpg"]), "2024-01-01_Paris", "jpg"),
        Some("2024-01-01_Paris.jpg".to_string())
    );
}

#[test]
fn base_name_that_ends_with_the_extension_is_kept() {
    assert_eq!(unique_filename(&names(&[]), "photo.jpg", "jpg"), Some("photo.jpg".to_string()));
    assert_eq!(
        unique_filename(&names(&["photo.jpg"]), "photo.jpg", "jpg"),
        Some("photo_1.jpg".to_string())
    );
    assert_eq!(
        unique_filename(&names(&["photo.jpg.jpg"]), "photo.jpg.jpg", "jpg"),
        Some("photo_1.jpg".to_string())
    );
}

#[test]
fn taken_names_get_the_next_counter() {
    let mut dir = names(&["a.png"]);
    let expected = ["a_1.png", "a_2.png", "a_3.png", "a_4.png"];
    for want in expected {
        let got = unique_filename(&dir, "a", "png").unwrap();
        assert_eq!(got, want);
        dir.push(got);
    }
}

#[test]
fn colliding_files_get_distinct_names_in_order() {
    let mut dir: Vec<String> = Vec::new();
    let mut given: Vec<String> = Vec::new();
    for _ in 0..12 {
        let got = unique_filename(&dir, "2024-05-05_cat", "jpeg").unwrap();
        assert!(!given.contains(&got));
        dir.push(got.clone());
        given.push(got);
    }
    assert_eq!(given[0], "2024-05-05_cat.jpeg");
    assert_eq!(given[1], "2024-05-05_cat_1.jpeg");
    assert_eq!(given[9], "2024-05-05_cat_9.jpeg");
    assert_eq!(given[10], "2024-05-05_cat_10.jpeg");
    assert_eq!(given[11], "2024-05-05_cat_11.jpeg");
}

#[test]
fn gaps_are_filled_first() {
    let dir = names(&["a.jpg", "a_1.jpg", "a_3.jpg"]);
    assert_eq!(unique_filename(&dir, "a", "jpg"), Some("a_2.jpg".to_string()));
    let dir = names(&["a_1.jpg", "a_2.jpg"]);
    assert_eq!(unique_filename(&dir, "a", "jpg"), Some("a.jpg".to_string()));
}

#[test]
fn same_inputs_give_the_same_name() {
    let dir = names(&["x.jpg", "x_1.jpg"]);
    assert_eq!(unique_filename(&dir, "x", "jpg"), unique_filename(&dir, "x", "jpg"));
}

#[test]
fn normalized_names() {
    assert_eq!(normalize_filename_with_extension("photo", "jpg"), "photo.jpg");
    assert_eq!(normalize_filename_with_extension("photo.jpg", "jpg"), "photo.jpg");
    assert_eq!(normalize_filename_with_extension("photo.png", "jpg"), "photo.png.jpg");
    assert_eq!(normalize_filename_with_extension("photojpg", "jpg"), "photojpg.jpg");
    assert_eq!(normalize_filename_with_extension("", "jpg"), ".jpg");
    assert_eq!(normalize_filename_with_extension("photo", ""), "photo.");
    assert_eq!(normalize_filename_with_extension("photo.", ""), "photo.");
}

#[test]
fn counted_names() {
    assert_eq!(generate_filename_with_counter("photo", "jpg", 1), "photo_1.jpg");
    assert_eq!(generate_filename_with_counter("photo.jpg", "jpg", 2), "photo_2.jpg");
    assert_eq!(generate_filename_with_counter("photo.jpg.jpg", "jpg", 3), "photo_3.jpg");
    assert_eq!(generate_filename_with_counter("photo.png", "jpg", 10), "photo.png_10.jpg");
    assert_eq!(generate_filename_with_counter("photo", "jpg", 0), "photo_0.jpg");
    assert_eq!(generate_filename_with_counter("photo", "jpg", 4294967295), "photo_4294967295.jpg");
    assert_eq!(generate_filename_with_counter("a..", "", 7), "a_7.");
}

#[test]
fn date_part_is_what_stands_before_the_first_underscore() {
    assert_eq!(extract_date_part("2024-01-15_Paris.jpg"), "2024-01-15");
    assert_eq!(extract_date_part("2024-01-15_10-30-00_Paris.jpg"), "2024-01-15");
    assert_eq!(extract_date_part("_Paris.jpg"), "");
    assert_eq!(extract_date_part("Paris.jpg"), "unknown-date");
    assert_eq!(extract_date_part(""), "unknown-date");
}

#[test]
fn date_folder_paths() {
    assert_eq!(create_date_folder_path("/photos", "2024-01-15_Paris.jpg"), "/photos/2024-01-15/2024-01-15_Paris.jpg");
    assert_eq!(create_date_folder_path("/photos/", "2024-01-15_Paris.jpg"), "/photos/2024-01-15/2024-01-15_Paris.jpg");
    assert_eq!(create_date_folder_path("", "2024-01-15_Paris.jpg"), "2024-01-15/2024-01-15_Paris.jpg");
    assert_eq!(create_date_folder_path(".", "Paris.jpg"), "./unknown-date/Paris.jpg");
    assert_eq!(create_date_folder_path("photos", "/abs_name.jpg"), "/abs_name.jpg");
}
