use jerome::{caesar, rot13, CipherError, Translator};

#[test]
fn produces_rot13() {
    let original = "Sphinx of black quartz, judge my vow.".to_owned();
    let expected = "Fcuvak bs oynpx dhnegm, whqtr zl ibj.".to_owned();

    assert_eq!(expected, rot13(&original).unwrap());

    let translator = Translator::new();

    assert_eq!(expected, translator.rot13(&original).unwrap());
}

#[test]
fn caesar_cipher() {
    let original = "abrAcadaBya".to_owned();
    let expected = "bcsBdbebCzb".to_owned();

    assert_eq!(expected, caesar(&original, 1).unwrap());
}

#[test]
fn caesar_faces_shift_three() {
    let original = "Faces".to_string();
    assert_eq!("Idfhv".to_string(), Translator::new().caesar(&original, 3).unwrap());
    assert_eq!("Idfhv".to_string(), caesar(&original, 3).unwrap());
}

#[test]
fn rot13_keeps_case() {
    let original = "Zapper man".to_string();
    assert_eq!("Mnccre zna".to_string(), Translator::new().rot13(&original).unwrap());
    assert_eq!("Mnccre zna".to_string(), rot13(&original).unwrap());
}

#[test]
fn shift_above_range_is_rejected() {
    let original = "text".to_string();
    assert_eq!(Err(CipherError::InvalidShift), caesar(&original, 30));
    assert_eq!(Err(CipherError::InvalidShift), caesar(&original, 26));
    assert_eq!(Err(CipherError::InvalidShift), Translator::new().caesar(&original, 26));
    assert_eq!(Err(CipherError::InvalidShift), caesar(&String::new(), usize::MAX));
}

#[test]
fn rot13_twice_is_identity() {
    let translator = Translator::new();
    for text in ["Sphinx of black quartz, judge my vow.", "", "AZaz09 ~\t", "héllo Wörld"] {
        let original = text.to_string();
        let once = translator.rot13(&original).unwrap();
        let twice = translator.rot13(&once).unwrap();
        assert_eq!(original, twice);
    }
}

#[test]
fn shift_zero_is_identity() {
    let original = "Hello, World! 123".to_string();
    assert_eq!(original, caesar(&original, 0).unwrap());
}

#[test]
fn length_is_kept() {
    let original = "The quick brown fox, 42 times; ünïcode too.".to_string();
    for shift in 0..=25usize {
        let out = caesar(&original, shift).unwrap();
        assert_eq!(original.chars().count(), out.chars().count());
    }
}

#[test]
fn case_is_kept_for_every_letter() {
    for shift in 0..=25usize {
        for c in ('a'..='z').chain('A'..='Z') {
            let out = caesar(&c.to_string(), shift).unwrap();
            let r = out.chars().next().unwrap();
            assert_eq!(c.is_ascii_uppercase(), r.is_ascii_uppercase());
            assert_eq!(c.is_ascii_lowercase(), r.is_ascii_lowercase());
        }
    }
}

#[test]
fn non_letters_pass_through() {
    for shift in [0usize, 1, 13, 25] {
        for c in ['0', '9', ' ', '.', '@', '[', '`', '{', '\n', 'é', 'ß', '中'] {
            assert_eq!(c.to_string(), caesar(&c.to_string(), shift).unwrap());
        }
    }
}

#[test]
fn rotation_wraps_at_end_of_alphabet() {
    assert_eq!("abcABC".to_string(), caesar(&"zabZAB".to_string(), 1).unwrap());
    assert_eq!("zabZAB".to_string(), caesar(&"abcABC".to_string(), 25).unwrap());
    assert_eq!("nopNOP".to_string(), rot13(&"abcABC".to_string()).unwrap());
}

#[test]
fn empty_text() {
    assert_eq!(String::new(), rot13(&String::new()).unwrap());
    assert_eq!(String::new(), caesar(&String::new(), 7).unwrap());
}
