//! `blarg`: a command line argument parser with verified token matching, configuration checks and help rendering.
pub mod matcher;
pub mod middleware;
pub mod model;
pub mod capture;
pub mod choice;
pub mod compact;
pub mod derive;
pub mod builder;
pub mod field;
pub mod interface;
pub mod laws;
pub mod numbers;
pub mod parameter;
pub mod parser;
pub mod printer;
pub mod render;
pub mod text;
pub mod tokens;

pub use model::Nargs;
pub use builder::CommandLineParser;
pub use builder::CommandParser;
pub use builder::SubCommand;
pub use builder::SubCommandParser;
pub use capture::CliArgument;
pub use capture::CliOption;
pub use capture::InvalidCapture;
pub use field::Collectable;
pub use field::Collection;
pub use field::GenericCapturable;
pub use field::Optional;
pub use field::Scalar;
pub use field::Switch;
pub use middleware::GeneralParser;
pub use parameter::Choices;
pub use parameter::Condition;
pub use parameter::Parameter;
pub use parser::ConfigError;
