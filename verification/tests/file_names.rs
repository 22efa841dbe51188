use std::path::Path;

use retropixel::file_names::{
    extension_of, is_image_file, output_file_name, prefix_of, select_image_files,
};

fn out(name: &str) -> String {
    String::from_utf8(output_file_name(name.as_bytes())).unwrap()
}

#[test]
fn output_name_keeps_the_extension() {
    assert_eq!(out("photo.png"), "photo_output.png");
    assert_eq!(out("photo.JPG"), "photo_output.JPG");
}

#[test]
fn output_name_uses_the_prefix_before_the_first_dot() {
    assert_eq!(out("archive.tar.gz"), "archive_output.gz");
    assert_eq!(out("a.b.c.bmp"), "a_output.bmp");
}

#[test]
fn output_name_without_extension() {
    assert_eq!(out("picture"), "picture_output");
    assert_eq!(out(""), "_output");
    assert_eq!(out(".hidden"), ".hidden_output");
    assert_eq!(out("trailing."), "trailing_output");
}

#[test]
fn output_name_of_hidden_file_with_extension() {
    assert_eq!(out(".sprite.png"), ".sprite_output.png");
}

#[test]
fn output_name_handles_non_ascii() {
    assert_eq!(out("größe.webp"), "größe_output.webp");
}

#[test]
fn output_name_handles_bytes_that_are_not_utf8() {
    assert_eq!(output_file_name(b"\xffpic.png"), b"\xffpic_output.png".to_vec());
    assert_eq!(output_file_name(b"a.\xfe"), b"a_output.\xfe".to_vec());
}

#[test]
fn output_name_differs_from_input() {
    for name in ["a", "a.png", "a_output", "a.x.png", "..", ".", "", ".a", "x.", "a.xxxxxx.png"] {
        assert_ne!(out(name), name);
    }
}

#[test]
fn split_agrees_with_std_paths() {
    for name in ["a", "a.png", "a.tar.gz", ".hidden", ".sprite.png", "x.", "..", "é.ü", "a..b"] {
        let path = Path::new(name);
        let std_ext = path.extension().map(|e| e.as_encoded_bytes().to_vec());
        assert_eq!(extension_of(name.as_bytes()).map(|e| e.to_vec()), std_ext, "{name}");
    }
    assert_eq!(prefix_of(b"a.tar.gz"), b"a");
    assert_eq!(prefix_of(b".sprite.png"), b".sprite");
    assert_eq!(prefix_of(b".."), b"..");
    assert_eq!(prefix_of(b"noext"), b"noext");
    assert_eq!(prefix_of(b""), b"");
}

#[test]
fn output_name_matches_std_path_renaming() {
    for name in ["photo.png", "archive.tar.gz", "picture", ".sprite.png", "x."] {
        let path = Path::new("dir").join(name);
        let expected = {
            let mut file_name = String::from_utf8(prefix_of(name.as_bytes()).to_vec()).unwrap();
            file_name.push_str("_output");
            let mut p = path.with_file_name(file_name);
            if let Some(ext) = path.extension() {
                p.set_extension(ext);
            }
            p
        };
        assert_eq!(path.with_file_name(out(name)), expected, "{name}");
    }
}

#[test]
fn image_files_are_recognised_by_extension() {
    for name in ["a.png", "a.PNG", "b.JpEg", "c.tiff", "d.qoi", "e.tar.gif", "f.tga", "g.ico"] {
        assert!(is_image_file(name.as_bytes()), "{name}");
    }
    for name in ["notes.txt", "png", ".png", "x.", "", "a.pngx"] {
        assert!(!is_image_file(name.as_bytes()), "{name}");
    }
    assert!(!is_image_file(b"a.p\xffng"));
    assert!(is_image_file(b"\xff.png"));
}

#[test]
fn selection_keeps_image_files_in_order() {
    let names: Vec<Vec<u8>> = ["a.png", "readme.md", "b.jpg", "c", "d.BMP", ".gif"]
        .iter()
        .map(|s| s.as_bytes().to_vec())
        .collect();
    assert_eq!(select_image_files(&names), vec![0, 2, 4]);
    assert_eq!(select_image_files(&vec![]), Vec::<usize>::new());
}

#[test]
fn output_name_keeps_the_image_format() {
    for name in ["a.png", "a.tar.gz", "b", "c.", ".d", ".e.JPEG", "f.txt", "g.h.webp"] {
        let o = output_file_name(name.as_bytes());
        assert_eq!(is_image_file(&o), is_image_file(name.as_bytes()), "{name}");
        let ext = extension_of(name.as_bytes()).filter(|e| !e.is_empty());
        assert_eq!(extension_of(&o), ext, "{name}");
    }
}
