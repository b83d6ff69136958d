use task_tracker::summary::{get_images, summary_key};
use task_tracker::upload::{decode_image_data, ImageDataError};

#[test]
fn later_reference_to_a_name_wins() {
    let images = get_images("![p](one.png)\n![q](q.png)\n![p](two.png)");
    assert_eq!(images.len(), 2);
    let p = images.iter().find(|i| i.name == "p").unwrap();
    assert_eq!(p.path, "two.png");
    let q = images.iter().find(|i| i.name == "q").unwrap();
    assert_eq!(q.path, "q.png");
}

#[test]
fn every_reference_on_a_line_is_found() {
    let images = get_images("see ![a](a.png) and ![b](b.jpg)");
    assert_eq!(images.len(), 2);
    assert_eq!(images[0].name, "a");
    assert_eq!(images[1].name, "b");
}

#[test]
fn malformed_references_are_ignored() {
    assert_eq!(get_images("![a](a.png").len(), 0);
    assert_eq!(get_images("![a]\n(a.png)").len(), 0);
    assert_eq!(get_images("[a](a.png)").len(), 0);
    assert_eq!(get_images("").len(), 0);
    assert_eq!(get_images("![a](https://x/a.png)").len(), 0);
}

#[test]
fn summary_keys() {
    assert_eq!(summary_key(0), "summaries/0.html");
    assert_eq!(summary_key(1234567890), "summaries/1234567890.html");
}

#[test]
fn image_data_urls_decode() {
    assert_eq!(decode_image_data("data:image/png;base64,aGVsbG8="), Ok(b"hello".to_vec()));
    assert_eq!(decode_image_data("no payload"), Err(ImageDataError::MissingPayload));
    assert_eq!(decode_image_data("data:image/png;base64,!!!"), Err(ImageDataError::InvalidBase64));
}
