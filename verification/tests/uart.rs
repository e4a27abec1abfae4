use minikernel::io::device::uart::{init, Control, Flag, KUart, LineControl, Uart};

#[test]
fn init_binds_and_programs_the_device() {
    let mut u = Uart::new();
    init(&mut u, 0x0900_0000, 24_000_000);
    assert_eq!(u.base, 0x0900_0000);
    // 24 MHz / (16 * 230400) = 6.
    assert_eq!(u.registers.baud_rate_i, 6);
    assert_eq!(u.registers.baud_rate_f, 0);
    assert_eq!(u.registers.control, 0x301);
    assert_eq!(u.registers.control, Control::ENABLE | Control::TRANSMIT | Control::RECEIVE);
    assert!(u.transmitted.is_empty());
}

#[test]
fn baud_divisor_is_split_into_six_and_eight_bits() {
    let mut u = Uart::new();
    u.baud_rate(1, 0xFFFF_FFF0);
    // Divisor 0x0FFF_FFFF.
    assert_eq!(u.registers.baud_rate_i, 0x3F);
    assert_eq!(u.registers.baud_rate_f, 0xFF);
    u.baud_rate(115_200, 48_000_000);
    assert_eq!(u.registers.baud_rate_i, 26);
    assert_eq!(u.registers.baud_rate_f, 0);
    u.baud_rate(9600, 48_000_000);
    // Divisor 312 = 0b100_111000.
    assert_eq!(u.registers.baud_rate_i, 312 & 0x3F);
    assert_eq!(u.registers.baud_rate_f, 312 >> 6);
}

#[test]
fn line_control_sets_fifo_and_word_length() {
    let mut u = Uart::new();
    u.line_control();
    assert_eq!(u.registers.line_control, 0x70);
    assert_eq!(u.registers.line_control, LineControl::FIFO | LineControl::WORD_LEN_8);
}

#[test]
fn print_str_turns_newline_into_crlf() {
    let mut u = Uart::new();
    u.print_str(b"a\nb\n\nc");
    assert_eq!(u.transmitted, b"a\r\nb\r\n\r\nc".to_vec());
    assert_eq!(u.registers.data, b'c' as u32);
}

#[test]
fn print_str_of_nothing_sends_nothing() {
    let mut u = Uart::new();
    u.registers.data = 77;
    u.print_str(b"");
    assert!(u.transmitted.is_empty());
    assert_eq!(u.registers.data, 77);
}

#[test]
fn print_str_in_pieces_equals_print_str_whole() {
    let mut a = Uart::new();
    a.print_str(b"Hello\nWor");
    a.print_str(b"ld\n");
    let mut b = Uart::new();
    b.print_str(b"Hello\nWorld\n");
    assert_eq!(a.transmitted, b.transmitted);
}

#[test]
fn send_writes_the_data_register() {
    let mut u = Uart::new();
    u.send(0x41);
    assert_eq!(u.registers.data, 0x41);
    assert_eq!(u.transmitted, vec![0x41]);
}

#[test]
fn receive_reads_the_low_byte() {
    let mut u = Uart::new();
    u.registers.data = 0x0142;
    assert_eq!(u.receive(), 0x42);
    assert_eq!(Flag::RECEIVE_EMPTY, 1 << 6);
    assert_eq!(Flag::TRANSMIT_FULL, 1 << 5);
}

#[test]
fn kuart_prints_a_line() {
    let mut u = Uart::new();
    KUart.print_str(&mut u, "Hello World!");
    KUart.print_str(&mut u, "\n");
    assert_eq!(u.transmitted, b"Hello World!\r\n".to_vec());
}
