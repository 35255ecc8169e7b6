use crate::paths::LaragonPaths;
use crate::service::{arg_views, ServiceKind, SpawnSpec};
use crate::text::{decimal, decimal_string};
use vstd::prelude::*;

verus! {

/// The Mailpit mail catcher: SMTP on 1025, web UI on 8025.
pub struct MailpitService {
    pub smtp_port: u16,
    pub ui_port: u16,
}

impl MailpitService {
    pub fn new() -> (s: MailpitService)
        ensures
            s.smtp_port == 1025,
            s.ui_port == 8025,
    {
        MailpitService { smtp_port: 1025, ui_port: 8025 }
    }

    pub fn kind(&self) -> (k: ServiceKind)
        ensures
            k == ServiceKind::Mailpit,
    {
        ServiceKind::Mailpit
    }

    pub fn name(&self) -> (n: &'static str)
        ensures
            n@ == "mailpit"@,
    {
        "mailpit"
    }

    pub fn deps(&self) -> (d: Vec<ServiceKind>)
        ensures
            d@.len() == 0,
    {
        Vec::new()
    }

    /// The port probed by the health check (the web UI).
    pub fn port(&self) -> (p: u16)
        ensures
            p == self.ui_port,
    {
        self.ui_port
    }

    /// `mailpit --listen 127.0.0.1:<ui> --smtp 127.0.0.1:<smtp>`.
    pub fn command(&self, paths: &LaragonPaths) -> (s: SpawnSpec)
        ensures
            s.program@ == "mailpit"@,
            arg_views(s.args@) == seq![
                "--listen"@,
                "127.0.0.1:"@ + decimal(self.ui_port as nat),
                "--smtp"@,
                "127.0.0.1:"@ + decimal(self.smtp_port as nat),
            ],
    {
        let mut ui = String::from_str("127.0.0.1:");
        ui.append(decimal_string(self.ui_port as u64).as_str());
        let mut smtp = String::from_str("127.0.0.1:");
        smtp.append(decimal_string(self.smtp_port as u64).as_str());
        proof {
            reveal_strlit("127.0.0.1:");
        }
        SpawnSpec::new("mailpit").arg("--listen").arg(ui.as_str()).arg("--smtp").arg(smtp.as_str())
    }
}

} // verus!
