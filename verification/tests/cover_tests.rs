use wenku2epub::book::image_file_name;
use wenku2epub::cover::{
    fetched_cover, first_image, local_cover_files, plan_cover, CoverPlan, CoverSource,
};
use wenku2epub::error::{Error, ErrorKind};
use wenku2epub::model::Book;

fn downloaded(names: &[&str]) -> Vec<(String, Vec<u8>)> {
    names
        .iter()
        .enumerate()
        .map(|(i, n)| (n.to_string(), vec![i as u8]))
        .collect()
}

#[test]
fn first_image_compares_numbers_not_text() {
    let d = downloaded(&["1_0_0.jpg", "0_0_10.jpg", "0_0_2.jpg", "0_1_0.jpg"]);
    assert_eq!(first_image(&d), Some(2));
}

#[test]
fn first_image_is_least_and_earliest_of_equals() {
    let d = downloaded(&["0_2_0.jpg", "0_1_5.jpg", "0_01_5.jpg", "0_1_6.jpg"]);
    assert_eq!(first_image(&d), Some(1));
}

#[test]
fn first_image_needs_first_volume() {
    let d = downloaded(&["1_0_0.jpg", "10_0_0.jpg", "x0_0.jpg"]);
    assert_eq!(first_image(&d), None);
    assert_eq!(first_image(&vec![]), None);
}

#[test]
fn first_image_missing_numbers_count_as_zero() {
    let d = downloaded(&["0_3.jpg", "0_a_b.jpg.jpg"]);
    assert_eq!(first_image(&d), Some(1));
}

#[test]
fn plan_cover_by_source() {
    let mut book = Book::empty();
    assert!(matches!(plan_cover(&book, &vec![], CoverSource::BookUrl), CoverPlan::Skip));
    book.cover_url = Some("http://img/c.jpg".to_string());
    match plan_cover(&book, &vec![], CoverSource::BookUrl) {
        CoverPlan::Fetch(u) => assert_eq!(u, "http://img/c.jpg"),
        _ => panic!("expected a fetch"),
    }
    let d = downloaded(&["0_0_1.jpg", "0_0_0.jpg"]);
    match plan_cover(&book, &d, CoverSource::FirstImage) {
        CoverPlan::Use(b) => assert_eq!(b, vec![1u8]),
        _ => panic!("expected bytes"),
    }
    assert!(matches!(plan_cover(&book, &vec![], CoverSource::FirstImage), CoverPlan::Skip));
    match plan_cover(&book, &d, CoverSource::LocalFile) {
        CoverPlan::ReadLocal(names) => assert_eq!(names, local_cover_files()),
        _ => panic!("expected local files"),
    }
}

#[test]
fn local_cover_files_in_priority_order() {
    assert_eq!(
        local_cover_files(),
        vec!["cover.jpg", "cover.jpeg", "cover.png", "cover.gif", "cover.webp", "cover.bmp"]
    );
}

#[test]
fn generated_names_order_by_numbers() {
    let names = [image_file_name(1, 0, 0), image_file_name(0, 0, 10), image_file_name(0, 0, 2), image_file_name(0, 1, 0)];
    let d: Vec<(String, Vec<u8>)> = names.iter().map(|n| (n.clone(), vec![])).collect();
    assert_eq!(first_image(&d), Some(2));
}

#[test]
fn failed_cover_fetch_skips_the_cover() {
    assert_eq!(fetched_cover(Ok(vec![9u8, 8])), Some(vec![9u8, 8]));
    assert_eq!(fetched_cover(Err(Error::new(ErrorKind::Network, "u:10:503".to_string()))), None);
}
