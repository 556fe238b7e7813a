//! Command-line options of the delegation and key-listing tool, and the chains it knows.
use vstd::prelude::*;

verus! {

/// Top-level options: the subcommand to run.
#[derive(Debug, Clone)]
pub struct Opts {
    /// The subcommand to run.
    pub command: Commands,
}

/// The subcommands of the tool.
#[derive(Debug, Clone)]
pub enum Commands {
    /// Generate BLS delegation or revocation messages.
    Delegate(DelegateCommand),
    /// Output a list of pubkeys in JSON format.
    Pubkeys(PubkeysCommand),
    /// Send a preconfirmation request to a proposer.
    Send(SendCommand),
}

/// Command for generating BLS delegation or revocation messages.
#[derive(Debug, Clone)]
pub struct DelegateCommand {
    /// The BLS public key to which the delegation message should be signed.
    pub delegatee_pubkey: String,
    /// The output file for the delegations.
    pub out: String,
    /// The chain for which the delegation message is intended.
    pub chain: Chain,
    /// Whether to generate delegation or revocation messages.
    pub action: Action,
    /// The source of the private key.
    pub source: KeySource,
}

/// Command for outputting a list of pubkeys in JSON format.
#[derive(Debug, Clone)]
pub struct PubkeysCommand {
    /// The output file for the pubkeys.
    pub out: String,
    /// The source of the private keys from which to extract the pubkeys.
    pub source: KeySource,
}

/// Command for sending a preconfirmation request to a proposer.
#[derive(Debug, Clone)]
pub struct SendCommand {
    /// Sidecar RPC URL to send requests to.
    pub sidecar_rpc_url: String,
    /// The private key to sign the transaction with.
    pub private_key: String,
}

/// The action to perform.
#[derive(Debug, Clone, Copy, PartialEq, Eq, Structural)]
pub enum Action {
    /// Create a delegation message.
    Delegate,
    /// Create a revocation message.
    Revoke,
}

/// Where the signing keys come from.
#[derive(Debug, Clone)]
pub enum KeySource {
    /// Local secret keys in hex format.
    SecretKeys { secret_keys: Vec<String> },
    /// An EIP-2335 filesystem keystore directory.
    LocalKeystore { opts: LocalKeystoreOpts },
    /// A remote DIRK keystore.
    Dirk { opts: DirkOpts },
}

/// Options for reading a keystore folder.
#[derive(Debug, Clone)]
pub struct LocalKeystoreOpts {
    /// The path to the keystore file.
    pub path: String,
    /// The password for the keystore files in the path.
    pub password: Option<String>,
    /// The path of the directory holding one password file per keystore.
    pub password_path: Option<String>,
}

/// Options for connecting to a DIRK keystore.
#[derive(Debug, Clone)]
pub struct DirkOpts {
    /// The URL of the DIRK keystore.
    pub url: String,
    /// The path of the wallets in the DIRK keystore.
    pub wallet_path: String,
    /// The passphrases to unlock the wallet, tried in order.
    pub passphrases: Option<Vec<String>>,
    /// The TLS credentials for connecting to the DIRK keystore.
    pub tls_credentials: TlsCredentials,
}

/// TLS credentials for connecting to a remote server.
#[derive(Debug, Clone)]
pub struct TlsCredentials {
    /// Path to the client certificate file.
    pub client_cert_path: String,
    /// Path to the client key file.
    pub client_key_path: String,
    /// Path to the CA certificate file.
    pub ca_cert_path: Option<String>,
}

/// Supported chains.
#[derive(Debug, Clone, Copy, PartialEq, Eq, Structural)]
pub enum Chain {
    Mainnet,
    Holesky,
    Helder,
    Kurtosis,
}

/// The 4-byte fork version that domain-separates BLS signatures on `c`.
pub open spec fn fork_version_of(c: Chain) -> Seq<u8> {
    match c {
        Chain::Mainnet => seq![0u8, 0u8, 0u8, 0u8],
        Chain::Holesky => seq![1u8, 1u8, 112u8, 0u8],
        Chain::Helder => seq![16u8, 0u8, 0u8, 0u8],
        Chain::Kurtosis => seq![16u8, 0u8, 0u8, 56u8],
    }
}

impl Chain {
    /// Get the fork version for the given chain.
    pub fn fork_version(&self) -> (r: [u8; 4])
        ensures
            r@ == fork_version_of(*self),
    {
        let r: [u8; 4] = match self {
            Chain::Mainnet => [0, 0, 0, 0],
            Chain::Holesky => [1, 1, 112, 0],
            Chain::Helder => [16, 0, 0, 0],
            Chain::Kurtosis => [16, 0, 0, 56],
        };
        assert(r@ =~= fork_version_of(*self));
        r
    }
}

} // verus!
