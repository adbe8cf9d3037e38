//! Device models, guest memory and host networking of a PC that runs in a
//! browser tab, with the behaviour of every operation stated and proved.

pub mod allow;
pub mod ata;
pub mod bits;
pub mod bytes;
pub mod cmos;
pub mod device;
pub mod disk;
pub mod dns;
pub mod forwarder;
pub mod iobus;
pub mod ipv4;
pub mod keyboard;
pub mod limits;
pub mod mem;
pub mod nat_stack;
pub mod pci;
pub mod pic;
pub mod pit;
pub mod pump;
pub mod queue;
pub mod rtl8139;
pub mod scancode;
pub mod session;
pub mod switch;
pub mod tcp;
pub mod text;
pub mod tls;
pub mod uart;
pub mod upstream;
pub mod util;

pub use allow::Allowlist;
pub use ata::{Ata, PRIMARY_PORT_BASE, SECONDARY_PORT_BASE};
pub use cmos::{reg as cmos_reg, Cmos};
pub use device::GuestDevice;
pub use disk::{Disk, SECTOR_SIZE as DISK_SECTOR_SIZE};
pub use forwarder::DnsForwarder;
pub use iobus::{IoBus, IoDevice};
pub use keyboard::Keyboard;
pub use mem::Memory;
pub use nat_stack::NatStack;
pub use pci::Pci;
pub use pic::Pic;
pub use pit::Pit;
pub use queue::QueueConnector;
pub use rtl8139::Rtl8139;
pub use switch::{Hub, Switch};
pub use uart::Uart;
