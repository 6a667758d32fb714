//! The client side of snolc: profiles, the configuration that they become, and the
//! state of the application.
pub mod atomic;
pub mod client;
pub mod codec;
pub mod config;
pub mod control;
pub mod deploy;
pub mod document;
pub mod error;
pub mod format;
pub mod install;
pub mod laws;
pub mod node;
pub mod options;
pub mod order;
pub mod packages;
pub mod paths;
pub mod profile;
pub mod provisioning;
pub mod secret;
pub mod session;
pub mod state;
pub mod subscription;
pub mod text;
pub mod tree;
pub mod ui;
pub mod uri;
pub mod value;

pub use client::{
    draft_client_config, generate_client_config, settle_client_config, ClientDraft, EngineCheck, GeneratedClient,
    GeneratedFile,
};
pub use deploy::persist_client_config;
pub use error::ProfileError;
pub use install::{bundled_library_name, install_bundled_modules};
pub use packages::PackageSet;
pub use profile::{ModuleClass, Profile, ProfileModule, ProvisionProfile, MAX_PROFILE_BYTES};
pub use provisioning::{AccessProvisioning, ProvisionedAccess};
pub use secret::Secret;
pub use session::{NativeEvent, PlatformHooks, Session, UserEvent};
pub use state::{AppState, ConnectionState, ImportedProfile, Screen, ServerStatus};
pub use subscription::{parse_subscription, MAX_SUBSCRIPTION_BYTES, MAX_SUBSCRIPTION_PROFILES};
pub use ui::{UiAction, UiDraft};
pub use value::{OptionTable, OptionValue};
