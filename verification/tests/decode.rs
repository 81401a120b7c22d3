use nshedit::domain::TextUnit;
use nshedit::editor::decode::Decoder;

fn drain(decoder: &mut Decoder) -> Vec<TextUnit> {
    let mut units = Vec::new();
    while let Some(unit) = decoder.pop() {
        units.push(unit);
    }
    units
}

#[test]
fn a_sequence_split_across_reads_decodes_once_complete() {
    let mut decoder = Decoder::default();
    decoder.push(&[0xc3]);
    assert_eq!(decoder.pop(), None, "the lead byte waits for its continuation");
    decoder.push(&[0xa9]);
    assert_eq!(drain(&mut decoder), vec![TextUnit::Scalar('é')]);
}

#[test]
fn invalid_bytes_become_raw_bytes_one_at_a_time() {
    let mut decoder = Decoder::new();
    decoder.push(&[b'a', 0xe2, 0x82, b'b', 0xff, 0xed, 0xa0, 0x80]);
    assert_eq!(
        drain(&mut decoder),
        vec![
            TextUnit::Scalar('a'),
            TextUnit::RawByte(0xe2),
            TextUnit::RawByte(0x82),
            TextUnit::Scalar('b'),
            TextUnit::RawByte(0xff),
            TextUnit::RawByte(0xed),
            TextUnit::RawByte(0xa0),
            TextUnit::RawByte(0x80),
        ]
    );
}

#[test]
fn finishing_turns_a_cut_off_sequence_into_raw_bytes() {
    let mut decoder = Decoder::new();
    decoder.push(&[b'x', 0xf0, 0x9f, 0x98]);
    assert_eq!(drain(&mut decoder), vec![TextUnit::Scalar('x')]);
    decoder.finish();
    assert_eq!(
        drain(&mut decoder),
        vec![
            TextUnit::RawByte(0xf0),
            TextUnit::RawByte(0x9f),
            TextUnit::RawByte(0x98),
        ]
    );
}

#[test]
fn a_four_byte_sequence_completes_across_three_reads() {
    let mut decoder = Decoder::new();
    decoder.push(&[0xf0]);
    decoder.push(&[0x9f, 0x98]);
    assert_eq!(decoder.pop(), None);
    decoder.push(&[0x80, b'!']);
    assert_eq!(
        drain(&mut decoder),
        vec![TextUnit::Scalar('\u{1f600}'), TextUnit::Scalar('!')]
    );
}

#[test]
fn clearing_drops_what_waits_and_what_was_decoded() {
    let mut decoder = Decoder::new();
    decoder.push(&[b'a', 0xe2]);
    decoder.clear();
    decoder.push(&[0x82]);
    assert_eq!(drain(&mut decoder), vec![TextUnit::RawByte(0x82)]);
}

#[test]
fn every_split_of_the_input_decodes_the_same() {
    let bytes: Vec<u8> = "aé€\u{1f600}z".bytes().chain([0xff, 0xe2, 0x82]).collect();
    let mut whole = Decoder::new();
    whole.push(&bytes);
    whole.finish();
    let expected = drain(&mut whole);
    for at in 0..=bytes.len() {
        let mut split = Decoder::new();
        split.push(&bytes[..at]);
        split.push(&bytes[at..]);
        split.finish();
        assert_eq!(drain(&mut split), expected, "split at {at}");
    }
}
