//! The reader capability, exercised through both implementations.

use xml5::reader::BuffReader;
use xml5::reader::FastRead;
use xml5::reader::Reader;
use xml5::reader::SliceReader;

fn read_fast<R: Reader>(r: &mut R, needle: &str) -> String {
    match r.read_fast_until(needle.as_bytes()) {
        FastRead::Char(chr) => format!("{}", chr as char),
        FastRead::InterNeedle(s, e) => String::from_utf8(r.slice_bytes(s, e).to_vec()).unwrap(),
        FastRead::EOF => "".to_string(),
    }
}

#[test]
pub fn test_read_until() {
    let source = "TestString";
    let mut buff_reader = BuffReader::from_str(source);
    let mut str_reader = SliceReader::from_str(source);

    assert_eq!("TestSt", read_fast(&mut buff_reader, "r").as_str());
    assert_eq!("TestSt", read_fast(&mut str_reader, "r").as_str());
    assert_eq!("r", read_fast(&mut buff_reader, "r").as_str());
    assert_eq!("r", read_fast(&mut str_reader, "r").as_str());
    assert_eq!("in", read_fast(&mut buff_reader, "g").as_str());
    assert_eq!("in", read_fast(&mut str_reader, "g").as_str());
    assert_eq!("g", read_fast(&mut buff_reader, "g").as_str());
    assert_eq!("g", read_fast(&mut str_reader, "g").as_str());
    assert_eq!("", read_fast(&mut buff_reader, "g").as_str());
    assert_eq!("", read_fast(&mut str_reader, "g").as_str());
}

#[test]
fn test_read_until2() {
    let source = "xyz_abc";
    let mut buff_reader = BuffReader::from_str(source);
    let mut str_reader = SliceReader::from_str(source);

    assert_eq!("x", read_fast(&mut buff_reader, "x").as_str());
    assert_eq!("x", read_fast(&mut str_reader, "x").as_str());
    assert_eq!("y", read_fast(&mut buff_reader, "y").as_str());
    assert_eq!("y", read_fast(&mut str_reader, "y").as_str());
    assert_eq!("z", read_fast(&mut buff_reader, "z").as_str());
    assert_eq!("z", read_fast(&mut str_reader, "z").as_str());
    assert_eq!("", read_fast(&mut buff_reader, "??").as_str());
    assert_eq!("", read_fast(&mut str_reader, "??").as_str());
}

#[test]
fn test_try_read_slice1() {
    let source = "xyz_abc";
    let mut buff_reader = BuffReader::from_str(source);
    let mut str_reader = SliceReader::from_str(source);

    assert!(!buff_reader.try_read_slice("?A?".as_bytes(), true));
    assert!(!str_reader.try_read_slice("?A?".as_bytes(), true));
    assert!(!buff_reader.try_read_slice("?A?".as_bytes(), false));
    assert!(!str_reader.try_read_slice("?A?".as_bytes(), false));
    assert!(buff_reader.try_read_slice("xyz".as_bytes(), true));
    assert!(str_reader.try_read_slice("xyz".as_bytes(), true));
    assert!(!buff_reader.try_read_slice("_AbC".as_bytes(), true));
    assert!(!str_reader.try_read_slice("_AbC".as_bytes(), true));
    assert!(buff_reader.try_read_slice("_AbC".as_bytes(), false));
    assert!(str_reader.try_read_slice("_AbC".as_bytes(), false));
}
