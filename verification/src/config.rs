use vstd::prelude::*;

verus! {

/// Settings the server is started with.
#[derive(Debug, Clone)]
pub struct Config {
    pub ip: String,
    pub port: u16,
    /// Path of the telemetry database file.
    pub db: String,
    /// Path of the database file used by tests.
    pub test_db: String,
    pub app_name: String,
}

/// The configuration the server runs with.
pub fn define_config() -> (config: Config)
    ensures
        config.ip@ == "127.0.0.1"@,
        config.port == 8000,
        config.app_name@ == "TLM Server"@,
        config.db@ == "./tlm.db"@,
        config.test_db@ == "./test.db"@,
{
    Config {
        ip: String::from_str("127.0.0.1"),
        port: 8000,
        app_name: String::from_str("TLM Server"),
        db: String::from_str("./tlm.db"),
        test_db: String::from_str("./test.db"),
    }
}

} // verus!
