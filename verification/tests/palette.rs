use bg_removal::color::Color;

const ALL: [Color; 9] = [
    Color::BLACK,
    Color::WHITE,
    Color::SILVER,
    Color::BLUE,
    Color::YELLOW,
    Color::GREEN,
    Color::RED,
    Color::BAIGE,
    Color::ORANGE,
];

#[test]
fn codes_are_the_powers_of_two_in_order() {
    let codes: Vec<i32> = ALL.iter().map(|c| c.code()).collect();
    assert_eq!(codes, vec![1, 2, 4, 8, 16, 32, 64, 128, 256]);
}

#[test]
fn codes_share_no_bit() {
    for (i, a) in ALL.iter().enumerate() {
        for b in ALL.iter().skip(i + 1) {
            assert_eq!(a.code() & b.code(), 0);
        }
    }
}

#[test]
fn names_are_as_the_catalogue_writes_them() {
    let names: Vec<String> = ALL.iter().map(|c| c.str()).collect();
    assert_eq!(
        names,
        vec!["Black", "White", "Silver", "Blue", "Yellow", "Green", "Red", "Baige", "Orange"]
    );
}
