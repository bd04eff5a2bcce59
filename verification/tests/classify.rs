use iv::classify::{extension_of, FileType};

fn name(s: &str) -> Vec<u8> {
    s.as_bytes().to_vec()
}

#[test]
fn directory_is_dir_regardless_of_extension() {
    assert_eq!(FileType::from(&name("photo.jpg"), true), FileType::Dir);
    assert_eq!(FileType::from(&name("notes.ts"), true), FileType::Dir);
    assert_eq!(FileType::from(&name("plain"), true), FileType::Dir);
}

#[test]
fn jpg_is_image() {
    let r = FileType::from(&name("photo.jpg"), false);
    assert_eq!(r, FileType::Image(name("image/jpeg")));
}

#[test]
fn mp4_is_video() {
    let r = FileType::from(&name("clip.mp4"), false);
    assert_eq!(r, FileType::Video(name("video/mp4")));
}

#[test]
fn typescript_goes_through_the_override() {
    let r = FileType::from(&name("notes.ts"), false);
    assert_eq!(r, FileType::Unknown(name("text/typescript")));
    let r = FileType::from(&name("mod.mts"), false);
    assert_eq!(r, FileType::Unknown(name("text/typescript")));
}

#[test]
fn unknown_extension_is_octet_stream() {
    let r = FileType::from(&name("data.zzqq"), false);
    assert_eq!(r, FileType::Unknown(name("application/octet-stream")));
}

#[test]
fn no_extension_is_octet_stream() {
    let r = FileType::from(&name("README"), false);
    assert_eq!(r, FileType::Unknown(name("application/octet-stream")));
}

#[test]
fn extension_extraction() {
    assert_eq!(extension_of(&name("a.txt")), name("txt"));
    assert_eq!(extension_of(&name("archive.tar.gz")), name("gz"));
    assert_eq!(extension_of(&name("README")), name(""));
    assert_eq!(extension_of(&name(".gitignore")), name(""));
    assert_eq!(extension_of(&name("trailing.")), name(""));
    assert_eq!(extension_of(&name("")), name(""));
}
