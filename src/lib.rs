//! An on-chain program that sweeps the balances of closed accounts into the
//! program's upgrade authority, and creates counter records at derived
//! addresses.
pub mod account;
pub mod address;
pub mod close;
pub mod counter;
pub mod error;

pub use account::AccountInfo;
pub use address::{program_data_address, program_id, Address};
pub use close::{close_accounts, CloseAccounts, ProgramData};
pub use counter::{counter_address, create_account1, create_account2, Counter, CreateAccount1, CreateAccount2};
pub use error::{ErrorCode, ProgramError};
