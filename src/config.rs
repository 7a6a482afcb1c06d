//! Server configuration: its defaults, command-line overrides, and the
//! fixed header lines it implies.
use vstd::prelude::*;

verus! {

#[derive(Clone, Debug)]
pub struct ServerConfig {
    pub host: String,
    pub port: u16,
    pub name: String,
    pub threads: usize,
    pub queue_size: usize,
    pub read_timeout_secs: u64,
    pub write_timeout_secs: u64,
}

impl Default for ServerConfig {
    fn default() -> (r: Self)
        ensures
            r.host@ == "0.0.0.0"@,
            r.port == 8080,
            r.name@ == "Lumen/1.0"@,
            r.threads == 32,
            r.queue_size == 2000,
            r.read_timeout_secs == 10,
            r.write_timeout_secs == 15,
    {
        ServerConfig {
            host: "0.0.0.0".to_string(),
            port: 8080,
            name: "Lumen/1.0".to_string(),
            threads: 32,
            queue_size: 2000,
            read_timeout_secs: 10,
            write_timeout_secs: 15,
        }
    }
}

#[derive(Clone, Debug)]
pub struct PathConfig {
    pub content_dir: String,
    pub theme_dir: String,
    pub fallback_404: String,
}

impl Default for PathConfig {
    fn default() -> (r: Self)
        ensures
            r.content_dir@ == "content"@,
            r.theme_dir@ == "themes/default"@,
            r.fallback_404@ == "404"@,
    {
        PathConfig {
            content_dir: "content".to_string(),
            theme_dir: "themes/default".to_string(),
            fallback_404: "404".to_string(),
        }
    }
}

#[derive(Clone, Debug)]
pub struct SecurityConfig {
    pub x_frame_options: String,
    pub x_content_type_options: String,
    pub content_security_policy: String,
    pub cors_allow_origin: String,
}

impl Default for SecurityConfig {
    fn default() -> (r: Self)
        ensures
            r.x_frame_options@ == "DENY"@,
            r.x_content_type_options@ == "nosniff"@,
            r.content_security_policy@
                == "default-src 'self'; style-src 'self' 'unsafe-inline'; media-src 'self'"@,
            r.cors_allow_origin@ == "*"@,
    {
        SecurityConfig {
            x_frame_options: "DENY".to_string(),
            x_content_type_options: "nosniff".to_string(),
            content_security_policy: "default-src 'self'; style-src 'self' 'unsafe-inline'; media-src 'self'".to_string(),
            cors_allow_origin: "*".to_string(),
        }
    }
}

#[derive(Clone, Debug)]
pub struct PerformanceConfig {
    pub connection_buffer_size: usize,
    pub enable_caching: bool,
    pub max_cache_items: usize,
}

impl Default for PerformanceConfig {
    fn default() -> (r: Self)
        ensures
            r.connection_buffer_size == 65536,
            r.enable_caching,
            r.max_cache_items == 1024,
    {
        PerformanceConfig { connection_buffer_size: 65536, enable_caching: true, max_cache_items: 1024 }
    }
}

#[derive(Clone, Debug)]
pub struct TlsConfig {
    pub enabled: bool,
    pub cert_path: String,
    pub key_path: String,
}

impl Default for TlsConfig {
    fn default() -> (r: Self)
        ensures
            !r.enabled,
            r.cert_path@ == "certs/cert.pem"@,
            r.key_path@ == "certs/key.pem"@,
    {
        TlsConfig { enabled: false, cert_path: "certs/cert.pem".to_string(), key_path: "certs/key.pem".to_string() }
    }
}

#[derive(Clone, Debug)]
pub struct Config {
    pub server: ServerConfig,
    pub paths: PathConfig,
    pub security: SecurityConfig,
    pub performance: PerformanceConfig,
    pub tls: TlsConfig,
}

impl Default for Config {
    fn default() -> (r: Self)
        ensures
            r.server.port == 8080,
            r.server.threads == 32,
            r.server.queue_size == 2000,
            r.server.read_timeout_secs == 10,
            r.server.write_timeout_secs == 15,
            r.server.host@ == "0.0.0.0"@,
            r.server.name@ == "Lumen/1.0"@,
            r.paths.content_dir@ == "content"@,
            r.paths.theme_dir@ == "themes/default"@,
            r.paths.fallback_404@ == "404"@,
            r.security.x_frame_options@ == "DENY"@,
            r.security.x_content_type_options@ == "nosniff"@,
            r.security.cors_allow_origin@ == "*"@,
            r.security.content_security_policy@
                == "default-src 'self'; style-src 'self' 'unsafe-inline'; media-src 'self'"@,
            r.performance.connection_buffer_size == 65536,
            r.performance.enable_caching,
            r.performance.max_cache_items == 1024,
            !r.tls.enabled,
            r.tls.cert_path@ == "certs/cert.pem"@,
            r.tls.key_path@ == "certs/key.pem"@,
    {
        Config {
            server: ServerConfig::default(),
            paths: PathConfig::default(),
            security: SecurityConfig::default(),
            performance: PerformanceConfig::default(),
            tls: TlsConfig::default(),
        }
    }
}

impl Config {
    /// Applies the command line: a given port replaces the configured one,
    /// and developer mode turns the page cache off.
    pub fn with_cli_overrides(&mut self, port: Option<u16>, dev: bool)
        ensures
            final(self).server.port == match port {
                Some(p) => p,
                None => old(self).server.port,
            },
            final(self).performance.enable_caching == (old(self).performance.enable_caching && !dev),
            final(self).server.threads == old(self).server.threads,
            final(self).server.queue_size == old(self).server.queue_size,
            final(self).performance.max_cache_items == old(self).performance.max_cache_items,
            final(self).performance.connection_buffer_size == old(self).performance.connection_buffer_size,
    {
        if let Some(p) = port {
            self.server.port = p;
        }
        if dev {
            self.performance.enable_caching = false;
        }
    }

    /// How many pages the directory-listing cache holds: a quarter of the
    /// page cache, at least one.
    pub fn listing_cache_items(&self) -> (r: usize)
        ensures
            r == if self.performance.max_cache_items / 4 > 1 {
                self.performance.max_cache_items / 4
            } else {
                1
            },
    {
        let q = self.performance.max_cache_items / 4;
        if q > 1 {
            q
        } else {
            1
        }
    }
}

/// The header lines every response carries: the server's name and the
/// configured security headers.
pub open spec fn fixed_headers_spec(c: Config) -> Seq<char> {
    "Server: "@ + c.server.name@ + "\r\nX-Content-Type-Options: "@ + c.security.x_content_type_options@
        + "\r\nX-Frame-Options: "@ + c.security.x_frame_options@ + "\r\nContent-Security-Policy: "@
        + c.security.content_security_policy@ + "\r\nAccess-Control-Allow-Origin: "@
        + c.security.cors_allow_origin@ + "\r\n"@
}

pub fn fixed_headers(c: &Config) -> (r: String)
    ensures
        r@ == fixed_headers_spec(*c),
{
    let mut s = String::new();
    s.append("Server: ");
    s.append(c.server.name.as_str());
    s.append("\r\nX-Content-Type-Options: ");
    s.append(c.security.x_content_type_options.as_str());
    s.append("\r\nX-Frame-Options: ");
    s.append(c.security.x_frame_options.as_str());
    s.append("\r\nContent-Security-Policy: ");
    s.append(c.security.content_security_policy.as_str());
    s.append("\r\nAccess-Control-Allow-Origin: ");
    s.append(c.security.cors_allow_origin.as_str());
    s.append("\r\n");
    s
}

} // verus!
