use vstd::prelude::*;
use vstd::string::StringSliceAdditionalSpecFns;

verus! {

/// The register block of a PL011 UART, one field per 32-bit register.
#[derive(Copy, Clone)]
pub struct Registers {
    pub data: u32,
    pub receive_status_or_error_clear: u32,
    pub res0: [u32; 4],
    pub flag: u32,
    pub res1: u32,
    pub low_power_counter: u32,
    pub baud_rate_i: u32,
    pub baud_rate_f: u32,
    pub line_control: u32,
    pub control: u32,
    pub fifo_level: u32,
    pub interrupt_mask_set_or_clear: u32,
    pub masked_interrupt_status: u32,
    pub interrupt_clear: u32,
    pub dma_control: u32,
}

/// Bits of the control register.
pub struct Control;

impl Control {
    pub const ENABLE: u32 = 1 << 0;
    pub const TRANSMIT: u32 = 1 << 8;
    pub const RECEIVE: u32 = 1 << 9;
}

/// Bits of the flag register.
pub struct Flag;

impl Flag {
    pub const TRANSMIT_FULL: u32 = 1 << 5;
    pub const RECEIVE_EMPTY: u32 = 1 << 6;
}

/// Bits of the line control register.
pub struct LineControl;

impl LineControl {
    pub const FIFO: u32 = 1 << 4;
    pub const WORD_LEN_8: u32 = 3 << 5;
}

/// Baud rate that `Uart::init` sets.
pub const BAUD_RATE: u32 = 230400;

/// `s` as the line carries it: each `\n` goes out as `\r\n`.
pub open spec fn crlf(s: Seq<u8>) -> Seq<u8>
    decreases s.len(),
{
    if s.len() == 0 {
        Seq::empty()
    } else {
        crlf(s.drop_last()) + (if s.last() == 10u8 {
            seq![13u8, 10u8]
        } else {
            seq![s.last()]
        })
    }
}

/// The transmit FIFO has room.
pub open spec fn can_send(registers: Registers) -> bool {
    registers.flag & Flag::TRANSMIT_FULL == 0
}

/// The receive FIFO holds a byte.
pub open spec fn can_receive(registers: Registers) -> bool {
    registers.flag & Flag::RECEIVE_EMPTY == 0
}

/// `registers` with the data register set to `value`.
pub open spec fn with_data(registers: Registers, value: u32) -> Registers {
    Registers { data: value, ..registers }
}

/// Divisor that `baud_rate` derives from the reference clock.
pub open spec fn baud_divisor(baud_rate: u32, base_clock: u32) -> u32 {
    (base_clock / (16 * baud_rate) as u32) as u32
}

/// A PL011 UART driver: the base address its register block is mapped at, the
/// register values it has written, and the bytes its writes to the data
/// register have put on the line, in order.
pub struct Uart {
    pub base: usize,
    pub registers: Registers,
    pub transmitted: Vec<u8>,
}

impl Uart {
    /// A driver not yet bound to a register block: null base, zeroed registers,
    /// nothing sent.
    pub fn new() -> (r: Self)
        ensures
            r.base == 0,
            r.transmitted@ == Seq::<u8>::empty(),
            r.registers.flag == 0,
    {
        Uart {
            base: 0,
            registers: Registers {
                data: 0,
                receive_status_or_error_clear: 0,
                res0: [0, 0, 0, 0],
                flag: 0,
                res1: 0,
                low_power_counter: 0,
                baud_rate_i: 0,
                baud_rate_f: 0,
                line_control: 0,
                control: 0,
                fifo_level: 0,
                interrupt_mask_set_or_clear: 0,
                masked_interrupt_status: 0,
                interrupt_clear: 0,
                dma_control: 0,
            },
            transmitted: Vec::new(),
        }
    }

    /// Sets the baud rate to `BAUD_RATE` from `base_clock` and enables the UART.
    pub fn init(&mut self, base_clock: u32)
        ensures
            final(self).base == old(self).base,
            final(self).transmitted@ == old(self).transmitted@,
            final(self).registers == (Registers {
                baud_rate_i: baud_divisor(BAUD_RATE, base_clock) & 0x3F,
                baud_rate_f: (baud_divisor(BAUD_RATE, base_clock) >> 6) & 0xFF,
                control: Control::ENABLE | Control::TRANSMIT | Control::RECEIVE,
                ..old(self).registers
            }),
    {
        self.baud_rate(BAUD_RATE, base_clock);
        self.enable();
    }

    /// FIFO on, 8-bit words.
    pub fn line_control(&mut self)
        ensures
            final(self).base == old(self).base,
            final(self).transmitted@ == old(self).transmitted@,
            final(self).registers == (Registers {
                line_control: LineControl::FIFO | LineControl::WORD_LEN_8,
                ..old(self).registers
            }),
    {
        self.registers.line_control = LineControl::FIFO | LineControl::WORD_LEN_8;
    }

    /// Writes the divisor `base_clock / (16 * baud_rate)`: its low 6 bits to the
    /// integer register and the next 8 bits to the fractional register.
    pub fn baud_rate(&mut self, baud_rate: u32, base_clock: u32)
        requires
            baud_rate > 0,
            16 * baud_rate <= u32::MAX,
        ensures
            final(self).base == old(self).base,
            final(self).transmitted@ == old(self).transmitted@,
            final(self).registers == (Registers {
                baud_rate_i: baud_divisor(baud_rate, base_clock) & 0x3F,
                baud_rate_f: (baud_divisor(baud_rate, base_clock) >> 6) & 0xFF,
                ..old(self).registers
            }),
    {
        let baud_rate_divisor = base_clock / (16 * baud_rate);
        self.registers.baud_rate_i = baud_rate_divisor & 0x3F;
        self.registers.baud_rate_f = (baud_rate_divisor >> 6) & 0xFF;
    }

    /// Enables the UART, its transmitter and its receiver.
    pub fn enable(&mut self)
        ensures
            final(self).base == old(self).base,
            final(self).transmitted@ == old(self).transmitted@,
            final(self).registers == (Registers {
                control: Control::ENABLE | Control::TRANSMIT | Control::RECEIVE,
                ..old(self).registers
            }),
    {
        self.registers.control = Control::ENABLE | Control::TRANSMIT | Control::RECEIVE;
    }

    /// Reads the byte in the data register. The driver spins while the receive
    /// FIFO is empty, which never ends when nothing else changes the flags.
    pub fn receive(&mut self) -> (r: u8)
        requires
            can_receive(old(self).registers),
        ensures
            *final(self) == *old(self),
            r == (old(self).registers.data & 0xFF) as u8,
    {
        (self.registers.data & 0xFF) as u8
    }

    /// Writes `byte` to the data register, which puts it on the line. The driver
    /// spins while the transmit FIFO is full, which never ends when nothing
    /// else changes the flags.
    pub fn send(&mut self, byte: u8)
        requires
            can_send(old(self).registers),
        ensures
            final(self).base == old(self).base,
            final(self).registers == with_data(old(self).registers, byte as u32),
            final(self).registers.data == byte as u32,
            final(self).transmitted@ == old(self).transmitted@.push(byte),
            final(self).registers.data == final(self).transmitted@.last() as u32,
    {
        self.registers.data = byte as u32;
        self.transmitted.push(byte);
    }

    /// Sends `str`, each `\n` as `\r\n`.
    pub fn print_str(&mut self, str: &[u8])
        requires
            can_send(old(self).registers),
        ensures
            final(self).base == old(self).base,
            final(self).transmitted@ == old(self).transmitted@ + crlf(str@),
            final(self).registers == (if str@.len() == 0 {
                old(self).registers
            } else {
                with_data(old(self).registers, str@.last() as u32)
            }),
            str@.len() > 0 ==> final(self).registers.data == str@.last() as u32,
            str@.len() > 0 ==> final(self).registers.data == final(self).transmitted@.last() as u32,
    {
        let mut i: usize = 0;
        while i < str.len()
            invariant
                i <= str@.len(),
                self.base == old(self).base,
                self.transmitted@ == old(self).transmitted@ + crlf(str@.take(i as int)),
                self.registers == (if i == 0 {
                    old(self).registers
                } else {
                    with_data(old(self).registers, str@[i - 1] as u32)
                }),
                can_send(self.registers),
                i > 0 ==> self.registers.data == str@[i - 1] as u32,
            decreases str@.len() - i,
        {
            let c = str[i];
            if c == 10u8 {
                self.send(13u8);
            }
            self.send(c);
            proof {
                assert(str@.take(i + 1).drop_last() =~= str@.take(i as int));
                assert(self.transmitted@ =~= old(self).transmitted@ + crlf(str@.take(i + 1)));
            }
            i = i + 1;
        }
        proof {
            assert(str@.take(str@.len() as int) =~= str@);
            if str@.len() > 0 {
                lemma_crlf_last(str@);
            }
        }
    }
}

/// Binds `device` to the register block at `register_base` and initialises it
/// for a reference clock of `base_clock` Hz.
pub fn init(device: &mut Uart, register_base: usize, base_clock: u32)
    ensures
        final(device).base == register_base,
        final(device).transmitted@ == old(device).transmitted@,
        final(device).registers == (Registers {
            baud_rate_i: baud_divisor(BAUD_RATE, base_clock) & 0x3F,
            baud_rate_f: (baud_divisor(BAUD_RATE, base_clock) >> 6) & 0xFF,
            control: Control::ENABLE | Control::TRANSMIT | Control::RECEIVE,
            ..old(device).registers
        }),
{
    device.base = register_base;
    device.init(base_clock);
}

/// Handle on the kernel console.
#[derive(Copy, Clone, Debug)]
pub struct KUart;

impl KUart {
    /// Sends the bytes of `str` to the console `device`, each `\n` as `\r\n`.
    pub fn print_str(&self, device: &mut Uart, str: &str)
        requires
            can_send(old(device).registers),
        ensures
            final(device).base == old(device).base,
            final(device).transmitted@ == old(device).transmitted@ + crlf(str.spec_bytes()),
            final(device).registers == (if str.spec_bytes().len() == 0 {
                old(device).registers
            } else {
                with_data(old(device).registers, str.spec_bytes().last() as u32)
            }),
            str.spec_bytes().len() > 0 ==> final(device).registers.data == str.spec_bytes().last() as u32,
            str.spec_bytes().len() > 0 ==> final(device).registers.data == final(device).transmitted@.last() as u32,
    {
        device.print_str(str.as_bytes())
    }
}

/// Writing `value` to the data register sets that register to `value` and
/// leaves every other register as it was.
pub proof fn lemma_with_data(registers: Registers, value: u32)
    ensures
        with_data(registers, value).data == value,
        with_data(registers, value).receive_status_or_error_clear == registers.receive_status_or_error_clear,
        with_data(registers, value).res0 == registers.res0,
        with_data(registers, value).flag == registers.flag,
        with_data(registers, value).res1 == registers.res1,
        with_data(registers, value).low_power_counter == registers.low_power_counter,
        with_data(registers, value).baud_rate_i == registers.baud_rate_i,
        with_data(registers, value).baud_rate_f == registers.baud_rate_f,
        with_data(registers, value).line_control == registers.line_control,
        with_data(registers, value).control == registers.control,
        with_data(registers, value).fifo_level == registers.fifo_level,
        with_data(registers, value).interrupt_mask_set_or_clear == registers.interrupt_mask_set_or_clear,
        with_data(registers, value).masked_interrupt_status == registers.masked_interrupt_status,
        with_data(registers, value).interrupt_clear == registers.interrupt_clear,
        with_data(registers, value).dma_control == registers.dma_control,
{
}

/// The last byte on the line for a non-empty text is the text's last byte:
/// a `\n` goes out as `\r\n`, which still ends in `\n`.
pub proof fn lemma_crlf_last(s: Seq<u8>)
    requires
        s.len() > 0,
    ensures
        crlf(s).len() > 0,
        crlf(s).last() == s.last(),
{
}

/// Sending `a` and then `b` puts the same bytes on the line as sending `a + b`.
pub proof fn lemma_crlf_append(a: Seq<u8>, b: Seq<u8>)
    ensures
        crlf(a + b) == crlf(a) + crlf(b),
    decreases b.len(),
{
    if b.len() == 0 {
        assert(a + b =~= a);
        assert(crlf(a) + crlf(b) =~= crlf(a));
    } else {
        lemma_crlf_append(a, b.drop_last());
        assert((a + b).drop_last() =~= a + b.drop_last());
        assert((a + b).last() == b.last());
        assert(crlf(a + b) =~= crlf(a) + crlf(b));
    }
}

/// Every `\n` on the line comes right after a `\r`.
pub proof fn lemma_crlf_newline_after_return(s: Seq<u8>)
    ensures
        forall|i: int| 0 <= i < crlf(s).len() && #[trigger] crlf(s)[i] == 10u8 ==> i > 0 && crlf(s)[i - 1] == 13u8,
    decreases s.len(),
{
    if s.len() > 0 {
        lemma_crlf_newline_after_return(s.drop_last());
        let p = crlf(s.drop_last());
        assert forall|i: int| 0 <= i < crlf(s).len() && #[trigger] crlf(s)[i] == 10u8 implies i > 0 && crlf(s)[i - 1] == 13u8 by {
            if i < p.len() {
                assert(crlf(s)[i] == p[i]);
                assert(crlf(s)[i - 1] == p[i - 1]);
            }
        }
    }
}

/// Bytes without `\n` go out unchanged.
pub proof fn lemma_crlf_without_newline(s: Seq<u8>)
    requires
        forall|i: int| 0 <= i < s.len() ==> #[trigger] s[i] != 10u8,
    ensures
        crlf(s) == s,
    decreases s.len(),
{
    if s.len() > 0 {
        lemma_crlf_without_newline(s.drop_last());
        assert(s[s.len() - 1] != 10u8);
        assert(crlf(s) =~= s);
    }
}

} // verus!
