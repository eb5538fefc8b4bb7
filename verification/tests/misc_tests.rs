use rpi_mini_os::uart::{Uart, FR_RXFE, FR_TXFF};
use rpi_mini_os::QemuExitCode;

#[test]
fn uart_control_and_flags() {
    assert_eq!(Uart::control_enable(), 0x301);
    assert!(Uart::can_send(0));
    assert!(!Uart::can_send(FR_TXFF));
    assert!(Uart::can_send(FR_RXFE));
    assert!(Uart::can_receive(FR_TXFF));
    assert!(!Uart::can_receive(FR_RXFE | 0x100));
    assert_eq!(Uart::received_byte(0x1241), 0x41);
    assert_eq!(Uart::received_byte(0xFFFF_FF00), 0);
}

#[test]
fn uart_line_endings() {
    assert_eq!(Uart::wire_bytes(b"ab\ncd\n"), b"ab\r\ncd\r\n".to_vec());
    assert_eq!(Uart::wire_bytes(b""), Vec::<u8>::new());
    assert_eq!(Uart::wire_bytes(b"\r"), b"\r".to_vec());
    let mut joined = Uart::wire_bytes(b"x\n");
    joined.extend(Uart::wire_bytes(b"\ny"));
    assert_eq!(joined, Uart::wire_bytes(b"x\n\ny"));
}

#[test]
fn qemu_exit_codes() {
    assert_eq!(QemuExitCode::Success.code(), 0x20026);
    assert_eq!(QemuExitCode::Failed.code(), 0x20027);
    assert_eq!(QemuExitCode::Failed.exit_parameters(), [0x20027, 0]);
    assert_eq!(rpi_mini_os::SYS_EXIT, 0x18);
}
