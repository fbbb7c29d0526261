use panea::fonts::requested_families;
use panea::fonts::{is_default_ignorable, single_scalar, unpremultiply_rgba, FontSource, LoadedFont};

#[test]
fn color_outline_pixels_are_converted_to_straight_alpha() {
    let mut pixels = vec![64, 32, 16, 128, 0, 0, 0, 0];
    unpremultiply_rgba(&mut pixels);
    assert_eq!(&pixels[..4], &[127, 63, 31, 128]);
    assert_eq!(&pixels[4..], &[0, 0, 0, 0]);
}

#[test]
fn opaque_pixels_are_unchanged_by_unpremultiplying() {
    let mut pixels = vec![10, 20, 30, 255, 7];
    unpremultiply_rgba(&mut pixels);
    assert_eq!(pixels, vec![10, 20, 30, 255, 7]);
}

#[test]
fn single_scalars_and_ignorable_characters() {
    assert_eq!(single_scalar("a"), Some('a'));
    assert_eq!(single_scalar("ab"), None);
    assert_eq!(single_scalar(""), None);
    assert!(is_default_ignorable('\u{200d}'));
    assert!(is_default_ignorable('\u{fe0f}'));
    assert!(!is_default_ignorable('a'));
}

#[test]
fn loaded_fonts_report_what_they_were_made_from() {
    let font = LoadedFont::new("Mono".to_owned(), 2, FontSource::File("/fonts/mono.ttf".to_owned()), true, false);
    assert_eq!(font.family(), "Mono");
    assert_eq!(font.face_index(), 2);
    assert!(font.is_bold());
    assert!(!font.is_italic());
    assert_eq!(font.source(), &FontSource::File("/fonts/mono.ttf".to_owned()));
}

#[test]
fn requested_families_keep_the_first_spelling_of_each_family() {
    let families = requested_families("Primary", &vec!["Fallback".to_owned(), "consolas".to_owned()]);
    assert_eq!(families[0], "Primary");
    assert_eq!(families[1], "Fallback");
    assert_eq!(families[2], "consolas");
    assert!(!families.iter().any(|family| family == "Consolas"));
    assert_eq!(families.last().map(String::as_str), Some("monospace"));
    assert_eq!(families.len(), 16);

    let generic = requested_families("MonoSpace", &Vec::new());
    assert_eq!(generic[0], "Cascadia Mono");
    assert_eq!(generic.len(), 14);
}

#[test]
fn face_ids_follow_the_face_attributes_alone() {
    let a = LoadedFont::new("Mono".to_owned(), 2, FontSource::File("/fonts/mono.ttf".to_owned()), true, false);
    let b = LoadedFont::new("Mono".to_owned(), 2, FontSource::File("/fonts/mono.ttf".to_owned()), true, false);
    assert_eq!(a.id(), b.id());
    let italic = LoadedFont::new("Mono".to_owned(), 2, FontSource::File("/fonts/mono.ttf".to_owned()), true, true);
    let other_face = LoadedFont::new("Mono".to_owned(), 3, FontSource::File("/fonts/mono.ttf".to_owned()), true, false);
    let other_family = LoadedFont::new("Sans".to_owned(), 2, FontSource::File("/fonts/mono.ttf".to_owned()), true, false);
    let memory = LoadedFont::new("Mono".to_owned(), 2, FontSource::Memory, true, false);
    assert_ne!(a.id(), italic.id());
    assert_ne!(a.id(), other_face.id());
    assert_ne!(a.id(), other_family.id());
    assert_ne!(a.id(), memory.id());
}
