//! The systemd unit.
use vstd::prelude::*;

verus! {

/// Where the unit file is installed.
pub const UNIT_PATH: &'static str = "/etc/systemd/system/whcanrc-assisted-listening.service";

/// The text of the unit file.
pub const UNIT_TEXT: &'static str = "[Unit]
Description=WHCanRC Assisted Listening Server
After=network.target sound.target
Wants=network.target

[Service]
Type=simple
ExecStart=/usr/local/bin/whcanrc-assisted-listening
WorkingDirectory=/etc/whcanrc
Restart=on-failure
RestartSec=5
StandardOutput=journal
StandardError=journal
SyslogIdentifier=whcanrc

[Install]
WantedBy=multi-user.target
";

/// Generates the systemd unit file for the service.
pub fn generate_systemd_unit() -> (r: String)
    ensures
        r@ == UNIT_TEXT@,
        r@ == "[Unit]
Description=WHCanRC Assisted Listening Server
After=network.target sound.target
Wants=network.target

[Service]
Type=simple
ExecStart=/usr/local/bin/whcanrc-assisted-listening
WorkingDirectory=/etc/whcanrc
Restart=on-failure
RestartSec=5
StandardOutput=journal
StandardError=journal
SyslogIdentifier=whcanrc

[Install]
WantedBy=multi-user.target
"@,
{
    UNIT_TEXT.to_string()
}

} // verus!
