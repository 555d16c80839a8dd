use block_byte::color::{Color, ColorError};

#[test]
fn color_text_forms() {
    assert_eq!(Color::rgb(255, 16, 171).to_text(), "ff10ab");
    assert_eq!(Color { r: 5, g: 16, b: 17, a: 128 }.to_text(), " 5101180");
    assert_eq!(Color::from_text("ff10AB"), Ok(Color::rgb(255, 16, 171)));
    assert_eq!(Color::from_text("+f10AB20"), Ok(Color { r: 15, g: 16, b: 171, a: 32 }));
    assert_eq!(Color::from_text("ff10A"), Err(ColorError::Length));
    assert_eq!(Color::from_text(" 51011"), Err(ColorError::Digit));
    assert_eq!(Color::from_text("éé00"), Err(ColorError::Digit));
}

#[test]
fn color_round_trip() {
    let color = Color { r: 16, g: 99, b: 255, a: 254 };
    assert_eq!(Color::from_text(&color.to_text()), Ok(color));
}
