//! Verified core of a small STM32F411 bootloader: the application image
//! format and its validation, the IEEE CRC-32, the flash sector map and
//! register values, and the UART recovery protocol as a state machine.
//! Register access, the jump to the application and the UART/flash drivers
//! are performed by the program around this library.
pub mod types;
pub mod crc;
pub mod check;
pub mod regs;
pub mod flash;
pub mod recovery;
pub mod upload;
