use skakoui::{File, Rank, Square, SquareColor};

#[test]
fn files_are_ordered_letters() {
    assert!(File::A < File::B);
    assert!(File::B < File::C);
    assert!(File::C < File::D);
    assert!(File::D < File::E);
    assert!(File::E < File::F);
    assert!(File::F < File::G);
    assert!(File::G < File::H);
}

#[test]
fn ranks_are_ordered_numbers() {
    assert!(Rank::_1 < Rank::_2);
    assert!(Rank::_2 < Rank::_3);
    assert!(Rank::_3 < Rank::_4);
    assert!(Rank::_4 < Rank::_5);
    assert!(Rank::_5 < Rank::_6);
    assert!(Rank::_6 < Rank::_7);
    assert!(Rank::_7 < Rank::_8);
}

#[test]
fn ranks_can_be_displayed() {
    assert_eq!("1", Rank::_1.to_string());
    assert_eq!("8", Rank::_8.to_string());
}

#[test]
fn files_can_be_displayed() {
    assert_eq!("a", File::A.to_string());
    assert_eq!("d", File::D.to_string());
}

#[test]
fn squares_can_be_displayed() {
    assert_eq!("g5", Square::G5.to_string());
}

#[test]
fn can_get_color_of_square() {
    assert_eq!(Square::A1.color(), SquareColor::Black);
    assert_eq!(Square::B1.color(), SquareColor::White);
    assert_eq!(Square::B2.color(), SquareColor::Black);
    assert_eq!(Square::B1.color(), SquareColor::White);
}

#[test]
fn can_create_square_from_index() {
    assert_eq!(Square::from_index(0), Square::A1);
    assert_eq!(Square::from_index(1), Square::B1);
    assert_eq!(Square::from_index(10), Square::C2);
    assert_eq!(Square::from_index(63), Square::H8);
}

#[test]
fn can_shift_rank_of_square() {
    assert_eq!(Square::C3.shift_rank(0), Square::C3);
    assert_eq!(Square::C3.shift_rank(1), Square::C4);
    assert_eq!(Square::C3.shift_rank(-1), Square::C2);
    assert_eq!(Square::C3.shift_rank(-2), Square::C1);
    assert_eq!(Square::C3.shift_rank(5), Square::C8);
}

#[test]
fn can_shift_file_of_square() {
    assert_eq!(Square::C3.shift_file(0), Square::C3);
    assert_eq!(Square::C3.shift_file(1), Square::D3);
    assert_eq!(Square::C3.shift_file(-1), Square::B3);
    assert_eq!(Square::C3.shift_file(-2), Square::A3);
    assert_eq!(Square::C3.shift_file(5), Square::H3);
}

#[test]
fn squares_parse_from_their_names() {
    assert_eq!("g5".parse::<Square>().unwrap(), Square::G5);
    assert!("i1".parse::<Square>().is_err());
    assert!("a9".parse::<Square>().is_err());
    assert!("a0".parse::<Square>().is_err());
    assert_eq!("+3".parse::<Rank>().unwrap(), Rank::_3);
    assert!("z".parse::<File>().is_err());
}

#[test]
fn every_square_name_parses_back() {
    for index in 0..64u8 {
        let square = Square::from_index(index);
        assert_eq!(Square::parse(&square.to_string()), Ok(square));
    }
}
