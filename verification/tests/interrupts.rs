use kernel::interrupts::{decode_selector_error, InterruptIndex, SelectorError, INTERRUPT_START};
use kernel::qemu::QemuExitCode;

#[test]
fn interrupt_vectors() {
    assert_eq!(INTERRUPT_START, 32);
    assert_eq!(InterruptIndex::Timer.as_u8(), 32);
    assert_eq!(InterruptIndex::Keyboard.as_u8(), 33);
    assert_eq!(InterruptIndex::Clock.as_u8(), 40);
    assert_eq!(InterruptIndex::LapicErr.as_u8(), 49);
    assert_eq!(InterruptIndex::Spurious.as_u8(), 0xff);
}

#[test]
fn a_selector_error_code_is_taken_apart() {
    assert_eq!(
        decode_selector_error(0),
        SelectorError { index: 0, table: 0, external: false }
    );
    assert_eq!(
        decode_selector_error(0b1010_1011),
        SelectorError { index: 0b10101, table: 1, external: true }
    );
    assert_eq!(
        decode_selector_error(0x1_FFFF),
        SelectorError { index: 0x3FFF, table: 3, external: true }
    );
    assert_eq!(
        decode_selector_error(0x2_0006),
        SelectorError { index: 0, table: 3, external: false }
    );
}

#[test]
fn exit_codes_of_the_emulator() {
    assert_eq!(QemuExitCode::Success.code(), 0x10);
    assert_eq!(QemuExitCode::Failed.code(), 0x11);
}
