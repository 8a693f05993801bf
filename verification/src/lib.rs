//! Building blocks of a command-line mail sender for the Gmail API, with
//! their contracts: where its files live, how header fields are checked,
//! how a MIME message is laid out, and how its configuration is judged.

pub mod boundary;
pub mod config_check;
pub mod email;
pub mod header;
pub mod paths;
pub mod permissions;
pub mod send;
pub mod transfer_encoding;

pub use boundary::{boundary_from_bytes, generate_boundary};
pub use config_check::{
    classify_client_secret, client_secret_keys, configuration_ok, init_directory_action, judge_client_secret_text,
    path_state, ClientSecretKeys, JsonMember, ClientSecretState, CredentialKeys, DirectoryAction, PathState,
};
pub use email::{
    build_email, build_email_with_boundary, compose_email, encode_attachment, normalize_text,
    render_for_debug,
    Attachment, EncodedAttachment,
};
pub use header::{validate_header_field, HeaderFieldError};
pub use paths::{
    get_config_dir, get_config_path, get_data_dir, get_data_path, install_target, join_path,
    join_within, InstallError, InstallTarget,
};
pub use permissions::{
    check_permissions, format_octal, insecure_permissions_warning, INSTALLED_EXE_MODE,
    SECURE_DIR_MODE, SECURE_FILE_MODE,
};
pub use send::{
    bearer_authorization, is_success_status, send_outcome, send_request_body, SendError,
    SentMessage,
};
