use atm_refraction::parser::{
    float, lapse_def, parse_atmosphere, pressure_def, split_lapses, temperature_def, LapseError,
    Span,
};

fn value(text: &str, span: Span) -> f64 {
    text[span.start..span.end].parse().unwrap()
}

fn float_of(text: &str) -> (usize, f64) {
    let span = float(text.as_bytes(), 0).unwrap();
    (text.len() - span.end, value(text, span))
}

#[test]
fn test_float() {
    assert_eq!(float_of("1"), (0, 1.0));
    assert_eq!(float_of("-3"), (0, -3.0));
    assert_eq!(float_of("+50"), (0, 50.0));
    assert_eq!(float_of("0.3"), (0, 0.3));
    assert_eq!(float_of("1.8e3"), (0, 1.8e3));
    assert_eq!(float_of("-5.03"), (0, -5.03));
    assert_eq!(float_of("-5.03e-2"), (0, -5.03e-2));
}

#[test]
fn numbers_stop_where_the_grammar_does() {
    assert_eq!(float(b"12.x", 0), Some(Span { start: 0, end: 2 }));
    assert_eq!(float(b"7e+", 0), Some(Span { start: 0, end: 1 }));
    assert_eq!(float(b"7E3", 0), Some(Span { start: 0, end: 1 }));
    assert_eq!(float(b"-.5", 0), None);
    assert_eq!(float(b"", 0), None);
    assert_eq!(float(b"a 42", 2), Some(Span { start: 2, end: 4 }));
}

#[test]
fn test_pressure_def() {
    for text in [
        "pressure(0) = 101325.3",
        "pressure (0) = 101325",
        "pressure( 0 ) = 101325",
        "pressure(0)=101325",
    ] {
        let def = pressure_def(text.as_bytes(), 0).unwrap();
        assert_eq!(def.start_p.end, text.len());
        assert_eq!(value(text, def.start_h), 0.0);
        let expected = if text.ends_with(".3") { 101325.3 } else { 101325.0 };
        assert_eq!(value(text, def.start_p), expected);
    }
}

#[test]
fn test_lapse_def() {
    let text = "lapse() = 0.32";
    let def = lapse_def(text.as_bytes(), 0).unwrap();
    assert_eq!(def.lapse.end, text.len());
    assert_eq!(def.start_h, None);
    assert_eq!(value(text, def.lapse), 0.32);

    let text = "     lapse(11e3) = 0.0";
    let def = lapse_def(text.as_bytes(), 0).unwrap();
    assert_eq!(def.lapse.end, text.len());
    assert_eq!(value(text, def.start_h.unwrap()), 11e3);
    assert_eq!(value(text, def.lapse), 0.0);
}

#[test]
fn test_temperature_def() {
    let text = "temperature:\nat(0) = 288\nlapse() = -0.0065\nlapse(11e3) = 0";
    let (def, end) = temperature_def(text.as_bytes(), 0).unwrap();
    assert_eq!(end, text.len());
    assert_eq!(value(text, def.start.start_h), 0.0);
    assert_eq!(value(text, def.start.start_t), 288.0);
    assert_eq!(def.lapses.len(), 2);
    assert_eq!(def.lapses[0].start_h, None);
    assert_eq!(value(text, def.lapses[0].lapse), -0.0065);
    assert_eq!(value(text, def.lapses[1].start_h.unwrap()), 11e3);
    assert_eq!(value(text, def.lapses[1].lapse), 0.0);
}

#[test]
fn whole_definition_without_line_breaks() {
    let text = "pressure(0) = 101325temperature:at(0) = 288lapse() = -0.0065lapse(11e3) = 0\
                lapse(20e3) = 0.001lapse(84.852e3) = 0";
    let (def, end) = parse_atmosphere(text.as_bytes()).unwrap();
    assert_eq!(end, text.len());
    assert_eq!(value(text, def.pressure.start_p), 101325.0);
    assert_eq!(def.temperature.lapses.len(), 4);
    assert_eq!(value(text, def.temperature.lapses[3].start_h.unwrap()), 84.852e3);
}

#[test]
fn definitions_that_break_the_grammar() {
    assert!(parse_atmosphere(b"").is_none());
    assert!(parse_atmosphere(b"pressure() = 1 temperature: at(0) = 1 lapse() = 0").is_none());
    assert!(parse_atmosphere(b"pressure(0) = 1 temperature: at(0) = 1").is_none());
    assert!(pressure_def(b"pressure(0) =", 0).is_none());
    assert!(temperature_def(b"temperature : at(0) = 1 lapse() = 0", 0).is_none());
}

#[test]
fn trailing_text_is_left_alone() {
    let text = "pressure(0)=1 temperature: at(0)=2 lapse()=3 rest";
    let (_, end) = parse_atmosphere(text.as_bytes()).unwrap();
    assert_eq!(&text[end..], " rest");
}

#[test]
fn lapses_split_into_first_and_rest() {
    let text = "temperature: at(0) = 288 lapse(11e3) = 0 lapse() = -0.0065 lapse(20e3) = 0.001";
    let (def, _) = temperature_def(text.as_bytes(), 0).unwrap();
    assert_eq!(split_lapses(&def.lapses), Ok((1, vec![0, 2])));
    let text = "temperature: at(0) = 288 lapse(11e3) = 0";
    let (def, _) = temperature_def(text.as_bytes(), 0).unwrap();
    assert_eq!(split_lapses(&def.lapses), Err(LapseError::NoFirstLapse));
    let text = "temperature: at(0) = 288 lapse() = 0 lapse(1) = 2 lapse() = 1";
    let (def, _) = temperature_def(text.as_bytes(), 0).unwrap();
    assert_eq!(split_lapses(&def.lapses), Err(LapseError::SeveralFirstLapses));
}
