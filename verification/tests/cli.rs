use wl_screenrec::cli::{parse_duration, parse_geometry, parse_size, ParseGeometryError};

#[test]
fn geometry_well_formed() {
    assert_eq!(parse_geometry("10,20 300x400"), Ok((10, 20, 300, 400)));
}

#[test]
fn geometry_negative_location() {
    // region-selection tools emit negative coordinates for left-of-origin
    // outputs
    assert_eq!(parse_geometry("-5,-10 20x30"), Ok((-5, -10, 20, 30)));
}

#[test]
fn geometry_structure_errors() {
    assert_eq!(parse_geometry("10,20"), Err(ParseGeometryError::Structure));
    assert_eq!(
        parse_geometry("1,2 3x4 extra"),
        Err(ParseGeometryError::Structure)
    );
    assert_eq!(parse_geometry(""), Err(ParseGeometryError::Structure));
}

#[test]
fn geometry_location_errors() {
    // a parseable first coordinate but no comma
    assert_eq!(
        parse_geometry("10 20x30"),
        Err(ParseGeometryError::Location)
    );
    // three coordinates
    assert_eq!(
        parse_geometry("1,2,3 4x5"),
        Err(ParseGeometryError::Location)
    );
}

#[test]
fn geometry_int_errors() {
    assert_eq!(
        parse_geometry("a,2 3x4"),
        Err(ParseGeometryError::Int)
    );
    assert_eq!(
        parse_geometry("1,b 3x4"),
        Err(ParseGeometryError::Int)
    );
    // width too large for a u32
    assert_eq!(
        parse_geometry("1,2 5000000000x5"),
        Err(ParseGeometryError::Int)
    );
}

#[test]
fn geometry_size_errors() {
    assert_eq!(parse_geometry("1,2 34"), Err(ParseGeometryError::Size));
    assert_eq!(parse_geometry("1,2 3x4x5"), Err(ParseGeometryError::Size));
    // an empty height is a number error, like std's integer parse
    assert_eq!(parse_geometry("1,2 3x"), Err(ParseGeometryError::Int));
}

#[test]
fn size_well_formed() {
    assert_eq!(parse_size("1920x1080"), Ok((1920, 1080)));
    assert_eq!(parse_size("0x0"), Ok((0, 0)));
}

#[test]
fn size_errors() {
    assert_eq!(parse_size("1920"), Err(ParseGeometryError::Size));
    assert_eq!(parse_size("ax5"), Err(ParseGeometryError::Int));
    assert_eq!(parse_size("-3x5"), Err(ParseGeometryError::Int));
}

#[test]
fn duration_parses_seconds() {
    assert_eq!(parse_duration("10"), Ok(10));
    assert_eq!(parse_duration("0"), Ok(0));
    assert_eq!(parse_duration("+7"), Ok(7));
}

#[test]
fn duration_rejects_junk() {
    assert_eq!(parse_duration("abc"), Err(ParseGeometryError::Int));
    assert_eq!(parse_duration(""), Err(ParseGeometryError::Int));
    assert_eq!(parse_duration("-1"), Err(ParseGeometryError::Int));
    // past the largest u64
    assert_eq!(
        parse_duration("99999999999999999999999"),
        Err(ParseGeometryError::Int)
    );
}
