//! Caching, compression and security hints for serving the renderer's assets
//! over HTTP.

use crate::chars::{chars_of, tail_is};
use vstd::prelude::*;

verus! {

/// The name of the caching header.
pub const CACHE_CONTROL: &'static str = "Cache-Control";

/// Assets whose name changes with their content: cached for a year.
pub const CACHE_IMMUTABLE: &'static str = "public, max-age=31536000, immutable";

/// Pages: cached for an hour, then checked again.
pub const CACHE_REVALIDATE: &'static str = "public, max-age=3600, must-revalidate";

/// Everything else: cached for a day.
pub const CACHE_DEFAULT: &'static str = "public, max-age=86400";

/// A server block for nginx that serves the assets with these rules.
pub const NGINX_CONFIG: &'static str = "
# Nginx configuration for optimized WASM serving
server {
    listen 80;
    server_name your-domain.com;
    root /var/www/html;
    
    # Compression
    gzip on;
    gzip_vary on;
    gzip_min_length 1024;
    gzip_types
        application/wasm
        application/javascript
        text/css
        text/html
        application/json;
    
    # Cache static assets with hash
    location ~* \\.(wasm|js|css)$ {
        expires 1y;
        add_header Cache-Control \"public, immutable\";
        add_header Vary Accept-Encoding;
    }
    
    # Cache fonts
    location ~* \\.(woff2|woff|ttf)$ {
        expires 1y;
        add_header Cache-Control \"public, immutable\";
    }
    
    # HTML with short cache
    location ~* \\.html$ {
        expires 1h;
        add_header Cache-Control \"public, must-revalidate\";
    }
    
    # Security headers
    add_header X-Content-Type-Options nosniff;
    add_header X-Frame-Options DENY;
    add_header X-XSS-Protection \"1; mode=block\";
    add_header Referrer-Policy \"strict-origin-when-cross-origin\";
    
    # CSP for WebGPU
    add_header Content-Security-Policy \"default-src 'self'; script-src 'self' 'unsafe-inline'; style-src 'self' 'unsafe-inline'; connect-src 'self'; worker-src 'self'\";
    
    # WASM MIME type
    location ~* \\.wasm$ {
        add_header Content-Type application/wasm;
    }
    
    # Fallback for SPA
    location / {
        try_files $uri $uri/ /index.html;
    }
}
";

/// Page rules for Cloudflare that mirror the caching rules.
pub const CLOUDFLARE_RULES: &'static str = "
# Cloudflare Page Rules for optimal caching

# Rule 1: Cache static assets
URL: your-domain.com/*.wasm
Cache Level: Cache Everything
Edge Cache TTL: 1 month
Browser Cache TTL: 1 month

# Rule 2: Cache JS/CSS
URL: your-domain.com/*.js
Cache Level: Cache Everything
Edge Cache TTL: 1 month
Browser Cache TTL: 1 month

# Rule 3: HTML with revalidation
URL: your-domain.com/*.html
Cache Level: Cache Everything
Edge Cache TTL: 1 hour
Browser Cache TTL: 1 hour

# Security Headers (via Transform Rules)
- X-Content-Type-Options: nosniff
- X-Frame-Options: DENY
- X-XSS-Protection: 1; mode=block
- Content-Security-Policy: default-src 'self'; script-src 'self' 'unsafe-inline'; style-src 'self' 'unsafe-inline'
";

/// `text` ends with `suffix`.
pub open spec fn has_suffix(text: Seq<char>, suffix: Seq<char>) -> bool {
    text.len() >= suffix.len() && text.subrange(text.len() - suffix.len(), text.len() as int)
        == suffix
}

/// The path names a content-hashed asset or a font.
pub open spec fn is_immutable_asset(path: Seq<char>) -> bool {
    has_suffix(path, ".wasm"@) || has_suffix(path, ".js"@) || has_suffix(path, ".css"@)
        || has_suffix(path, ".woff2"@) || has_suffix(path, ".woff"@) || has_suffix(path, ".ttf"@)
}

/// The value of the caching header for `path`.
pub open spec fn cache_policy(path: Seq<char>) -> Seq<char> {
    if is_immutable_asset(path) {
        CACHE_IMMUTABLE@
    } else if has_suffix(path, ".html"@) {
        CACHE_REVALIDATE@
    } else {
        CACHE_DEFAULT@
    }
}

/// What follows the last `.` of `path`; the whole path where it has none.
pub open spec fn last_segment(path: Seq<char>) -> Seq<char>
    decreases path.len(),
{
    if path.len() == 0 || path.last() == '.' {
        Seq::empty()
    } else {
        last_segment(path.drop_last()).push(path.last())
    }
}

/// The path's last segment names a format that compresses well.
pub open spec fn is_compressible(path: Seq<char>) -> bool {
    let segment = last_segment(path);
    segment == "js"@ || segment == "css"@ || segment == "html"@ || segment == "json"@ || segment
        == "wasm"@
}

/// The security headers, as pairs of name and value.
pub open spec fn security_headers() -> Seq<(Seq<char>, Seq<char>)> {
    seq![
        ("X-Content-Type-Options"@, "nosniff"@),
        ("X-Frame-Options"@, "DENY"@),
        ("X-XSS-Protection"@, "1; mode=block"@),
        ("Referrer-Policy"@, "strict-origin-when-cross-origin"@),
        (
            "Content-Security-Policy"@,
            "default-src 'self'; script-src 'self' 'unsafe-inline'; style-src 'self' 'unsafe-inline'; connect-src 'self'; worker-src 'self'"@,
        ),
    ]
}

/// The segment `[start, len)` is what `last_segment` describes, when no `.`
/// stands in it and one stands right before it.
pub proof fn lemma_last_segment_is_tail(path: Seq<char>, start: int)
    requires
        0 <= start <= path.len(),
        start == 0 || path[start - 1] == '.',
        forall|k: int| start <= k < path.len() ==> path[k] != '.',
    ensures
        last_segment(path) == path.subrange(start, path.len() as int),
    decreases path.len() - start,
{
    if start == path.len() {
        assert(path.subrange(start, path.len() as int) =~= Seq::empty());
    } else {
        let shorter = path.drop_last();
        lemma_last_segment_is_tail(shorter, start);
        assert(path.subrange(start, path.len() as int) =~= shorter.subrange(
            start,
            shorter.len() as int,
        ).push(path.last()));
    }
}

/// Whether the characters end with `suffix`.
fn ends_with(chars: &Vec<char>, suffix: &str) -> (ends: bool)
    ensures
        ends == has_suffix(chars@, suffix@),
{
    let wanted = suffix.unicode_len();
    if chars.len() < wanted {
        false
    } else {
        tail_is(chars, chars.len() - wanted, suffix)
    }
}

/// The caching header for an asset, chosen by the end of its path: a year for
/// content-hashed code, styles and fonts, an hour for pages, a day otherwise.
pub fn get_cache_headers(path: &str) -> (header: (&'static str, &'static str))
    ensures
        header.0@ == CACHE_CONTROL@,
        header.1@ == cache_policy(path@),
{
    let chars = chars_of(path);
    if ends_with(&chars, ".wasm") || ends_with(&chars, ".js") || ends_with(&chars, ".css")
        || ends_with(&chars, ".woff2") || ends_with(&chars, ".woff") || ends_with(&chars, ".ttf") {
        (CACHE_CONTROL, CACHE_IMMUTABLE)
    } else if ends_with(&chars, ".html") {
        (CACHE_CONTROL, CACHE_REVALIDATE)
    } else {
        (CACHE_CONTROL, CACHE_DEFAULT)
    }
}

/// Whether responses for `path` should be compressed: decided by what follows
/// the last `.` of the path.
pub fn should_compress(path: &str) -> (compress: bool)
    ensures
        compress == is_compressible(path@),
{
    let chars = chars_of(path);
    let mut start: usize = chars.len();
    while start > 0 && chars[start - 1] != '.'
        invariant
            0 <= start <= chars@.len(),
            forall|k: int| start <= k < chars@.len() ==> chars@[k] != '.',
        decreases start,
    {
        start -= 1;
    }
    proof {
        lemma_last_segment_is_tail(chars@, start as int);
    }
    tail_is(&chars, start, "js") || tail_is(&chars, start, "css") || tail_is(&chars, start, "html")
        || tail_is(&chars, start, "json") || tail_is(&chars, start, "wasm")
}

/// The security headers that every response carries.
pub fn get_security_headers() -> (headers: Vec<(&'static str, &'static str)>)
    ensures
        headers@.map_values(|h: (&'static str, &'static str)| (h.0@, h.1@)) == security_headers(),
{
    let mut headers: Vec<(&'static str, &'static str)> = Vec::new();
    headers.push(("X-Content-Type-Options", "nosniff"));
    headers.push(("X-Frame-Options", "DENY"));
    headers.push(("X-XSS-Protection", "1; mode=block"));
    headers.push(("Referrer-Policy", "strict-origin-when-cross-origin"));
    headers.push(
        (
            "Content-Security-Policy",
            "default-src 'self'; script-src 'self' 'unsafe-inline'; style-src 'self' 'unsafe-inline'; connect-src 'self'; worker-src 'self'",
        ),
    );
    assert(headers@.map_values(|h: (&'static str, &'static str)| (h.0@, h.1@))
        =~= security_headers());
    headers
}

/// The nginx configuration, as text.
pub fn generate_nginx_config() -> (config: String)
    ensures
        config@ == NGINX_CONFIG@,
{
    NGINX_CONFIG.to_owned()
}

/// The Cloudflare page rules, as text.
pub fn generate_cloudflare_rules() -> (rules: String)
    ensures
        rules@ == CLOUDFLARE_RULES@,
{
    CLOUDFLARE_RULES.to_owned()
}

} // verus!
