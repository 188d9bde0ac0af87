//! Process configuration consumed by the core: size ceiling and cache TTLs,
//! plus the listen address the surrounding process binds.  Reading the
//! environment happens outside the core; the core only holds the values.

use vstd::prelude::*;

verus! {

#[derive(Clone, Debug)]
pub struct Config {
    pub database_url: String,
    pub redis_url: String,
    pub server_host: String,
    pub server_port: u16,
    pub jwt_secret: String,
    pub max_rendered_size_kb: usize,
    pub template_cache_ttl_secs: u64,
    pub rendered_cache_ttl_secs: u64,
}

impl Config {
    /// The `host:port` pair the server binds.
    pub fn server_address(&self) -> (s: String)
        ensures
            s@ == self.server_host@ + ":"@ + crate::text::dec_str(self.server_port as nat),
    {
        let mut s = self.server_host.clone();
        s.append(":");
        let port = crate::text::u64_to_string(self.server_port as u64);
        s.append(port.as_str());
        s
    }
}

} // verus!
