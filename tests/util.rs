use toucca::util::{hi_word, lo_word, DebugUnwrap, WinDebugWriter};

#[test]
fn words_of_a_parameter() {
    assert_eq!(lo_word(0x1234_5678), 0x5678);
    assert_eq!(hi_word(0x1234_5678), 0x1234);
    assert_eq!(lo_word(0xFFFF), 0xFFFF);
    assert_eq!(hi_word(0xFFFF), 0);
    assert_eq!(lo_word(0x1_0000), 0);
    assert_eq!(hi_word(0x1_0000), 1);
}

#[test]
fn dbg_unwrap_returns_the_value() {
    let r: Result<u32, String> = Ok(42);
    assert_eq!(r.dbg_unwrap(), 42);
}

#[test]
fn debug_writer_builds() {
    let _writer = WinDebugWriter::new();
}
