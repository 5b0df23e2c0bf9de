//! Builders: a checked request builder and a typestate connection builder.

use core::marker::PhantomData;
use vstd::prelude::*;

verus! {

/// An assembled request.  The timeout is in seconds.
#[derive(Debug, Clone)]
pub struct HttpRequest {
    pub method: String,
    pub url: String,
    pub headers: Vec<(String, String)>,
    pub body: Option<String>,
    pub timeout_secs: u64,
}

/// Collects the parts of a request and checks the required ones at
/// `build` time: the method and the url must have been given, everything
/// else has a default.
pub struct HttpRequestBuilder {
    method: Option<String>,
    url: Option<String>,
    headers: Vec<(String, String)>,
    body: Option<String>,
    timeout_secs: Option<u64>,
}

impl HttpRequestBuilder {
    /// The method given so far, if any.
    pub closed spec fn spec_method(self) -> Option<String> {
        self.method
    }

    /// The url given so far, if any.
    pub closed spec fn spec_url(self) -> Option<String> {
        self.url
    }

    /// The headers given so far, in order.
    pub closed spec fn spec_headers(self) -> Seq<(String, String)> {
        self.headers@
    }

    /// The body given so far, if any.
    pub closed spec fn spec_body(self) -> Option<String> {
        self.body
    }

    /// The timeout given so far, if any.
    pub closed spec fn spec_timeout(self) -> Option<u64> {
        self.timeout_secs
    }

    /// An empty builder: nothing given yet.
    pub fn new() -> (b: HttpRequestBuilder)
        ensures
            b.spec_method() is None,
            b.spec_url() is None,
            b.spec_headers() == Seq::<(String, String)>::empty(),
            b.spec_body() is None,
            b.spec_timeout() is None,
    {
        HttpRequestBuilder {
            method: None,
            url: None,
            headers: Vec::new(),
            body: None,
            timeout_secs: None,
        }
    }

    /// Sets the method.
    pub fn method(self, method: &str) -> (b: HttpRequestBuilder)
        ensures
            b.spec_method() matches Some(m) && m@ == method@,
            b.spec_url() == self.spec_url(),
            b.spec_headers() == self.spec_headers(),
            b.spec_body() == self.spec_body(),
            b.spec_timeout() == self.spec_timeout(),
    {
        HttpRequestBuilder { method: Some(method.to_owned()), ..self }
    }

    /// Sets the url.
    pub fn url(self, url: &str) -> (b: HttpRequestBuilder)
        ensures
            b.spec_url() matches Some(u) && u@ == url@,
            b.spec_method() == self.spec_method(),
            b.spec_headers() == self.spec_headers(),
            b.spec_body() == self.spec_body(),
            b.spec_timeout() == self.spec_timeout(),
    {
        HttpRequestBuilder { url: Some(url.to_owned()), ..self }
    }

    /// Appends one header; headers accumulate in the order given.
    pub fn header(self, name: &str, value: &str) -> (b: HttpRequestBuilder)
        ensures
            b.spec_headers().len() == self.spec_headers().len() + 1,
            b.spec_headers().drop_last() == self.spec_headers(),
            b.spec_headers().last().0@ == name@,
            b.spec_headers().last().1@ == value@,
            b.spec_method() == self.spec_method(),
            b.spec_url() == self.spec_url(),
            b.spec_body() == self.spec_body(),
            b.spec_timeout() == self.spec_timeout(),
    {
        let mut b = self;
        b.headers.push((name.to_owned(), value.to_owned()));
        proof {
            assert(b.headers@.drop_last() =~= self.spec_headers());
        }
        b
    }

    /// Sets the body.
    pub fn body(self, body: &str) -> (b: HttpRequestBuilder)
        ensures
            b.spec_body() matches Some(x) && x@ == body@,
            b.spec_method() == self.spec_method(),
            b.spec_url() == self.spec_url(),
            b.spec_headers() == self.spec_headers(),
            b.spec_timeout() == self.spec_timeout(),
    {
        HttpRequestBuilder { body: Some(body.to_owned()), ..self }
    }

    /// Sets the timeout, in seconds.
    pub fn timeout(self, timeout_secs: u64) -> (b: HttpRequestBuilder)
        ensures
            b.spec_timeout() == Some(timeout_secs),
            b.spec_method() == self.spec_method(),
            b.spec_url() == self.spec_url(),
            b.spec_headers() == self.spec_headers(),
            b.spec_body() == self.spec_body(),
    {
        HttpRequestBuilder { timeout_secs: Some(timeout_secs), ..self }
    }

    /// Assembles the request.  Fails — naming the first missing part —
    /// exactly when the method or the url was never given; a missing
    /// timeout falls back to thirty seconds.
    pub fn build(self) -> (r: Result<HttpRequest, &'static str>)
        ensures
            self.spec_method() is None ==> (r matches Err(m) && m@ == "method is required"@),
            self.spec_method() is Some && self.spec_url() is None ==> (r matches Err(m) && m@
                == "url is required"@),
            self.spec_method() is Some && self.spec_url() is Some ==> (r matches Ok(q) && {
                &&& q.method == self.spec_method()->Some_0
                &&& q.url == self.spec_url()->Some_0
                &&& q.headers@ == self.spec_headers()
                &&& q.body == self.spec_body()
                &&& q.timeout_secs == if self.spec_timeout() is Some {
                    self.spec_timeout()->Some_0
                } else {
                    30u64
                }
            }),
    {
        let HttpRequestBuilder { method, url, headers, body, timeout_secs } = self;
        let m = match method {
            Some(m) => m,
            None => {
                return Err("method is required");
            },
        };
        let u = match url {
            Some(u) => u,
            None => {
                return Err("url is required");
            },
        };
        let t = match timeout_secs {
            Some(t) => t,
            None => 30,
        };
        Ok(HttpRequest { method: m, url: u, headers, body, timeout_secs: t })
    }
}

impl Default for HttpRequestBuilder {
    /// Same as [`HttpRequestBuilder::new`]: an empty builder.
    fn default() -> (b: HttpRequestBuilder)
        ensures
            b.spec_method() is None,
            b.spec_url() is None,
            b.spec_headers() == Seq::<(String, String)>::empty(),
            b.spec_body() is None,
            b.spec_timeout() is None,
    {
        HttpRequestBuilder::new()
    }
}

/// Typestate marker: no host has been given yet.
pub struct NoHost;

/// Typestate marker: a host has been given.
pub struct HasHost;

/// Typestate marker: no port has been given yet.
pub struct NoPort;

/// Typestate marker: a port has been given.
pub struct HasPort;

/// A fully specified connection target.
#[derive(Debug)]
pub struct Connection {
    pub host: String,
    pub port: u16,
    pub use_tls: bool,
    pub pool_size: u32,
}

/// A builder whose type parameters record which required parts have been
/// given: `build` exists only at `ConnectionBuilder<HasHost, HasPort>`,
/// so forgetting the host or the port is a compile error, not a runtime
/// one.
pub struct ConnectionBuilder<H, P> {
    host: Option<String>,
    port: Option<u16>,
    use_tls: bool,
    pool_size: u32,
    _host_state: PhantomData<H>,
    _port_state: PhantomData<P>,
}

impl<H, P> ConnectionBuilder<H, P> {
    /// The host given so far, if any.
    pub closed spec fn spec_host(self) -> Option<String> {
        self.host
    }

    /// The port given so far, if any.
    pub closed spec fn spec_port(self) -> Option<u16> {
        self.port
    }

    /// Whether the connection will use transport security.
    pub closed spec fn spec_use_tls(self) -> bool {
        self.use_tls
    }

    /// The connection pool size.
    pub closed spec fn spec_pool_size(self) -> u32 {
        self.pool_size
    }

    /// Switches transport security on or off; off is the default.
    pub fn use_tls(self, use_tls: bool) -> (b: ConnectionBuilder<H, P>)
        ensures
            b.spec_use_tls() == use_tls,
            b.spec_host() == self.spec_host(),
            b.spec_port() == self.spec_port(),
            b.spec_pool_size() == self.spec_pool_size(),
    {
        ConnectionBuilder { use_tls, ..self }
    }

    /// Sets the pool size; ten is the default.
    pub fn pool_size(self, size: u32) -> (b: ConnectionBuilder<H, P>)
        ensures
            b.spec_pool_size() == size,
            b.spec_host() == self.spec_host(),
            b.spec_port() == self.spec_port(),
            b.spec_use_tls() == self.spec_use_tls(),
    {
        ConnectionBuilder { pool_size: size, ..self }
    }
}

impl ConnectionBuilder<NoHost, NoPort> {
    /// A fresh builder: no host, no port, no transport security, a pool
    /// of ten.
    pub fn new() -> (b: ConnectionBuilder<NoHost, NoPort>)
        ensures
            b.spec_host() is None,
            b.spec_port() is None,
            !b.spec_use_tls(),
            b.spec_pool_size() == 10,
    {
        ConnectionBuilder {
            host: None,
            port: None,
            use_tls: false,
            pool_size: 10,
            _host_state: PhantomData,
            _port_state: PhantomData,
        }
    }
}

impl Default for ConnectionBuilder<NoHost, NoPort> {
    /// Same as [`ConnectionBuilder::new`].
    fn default() -> (b: ConnectionBuilder<NoHost, NoPort>)
        ensures
            b.spec_host() is None,
            b.spec_port() is None,
            !b.spec_use_tls(),
            b.spec_pool_size() == 10,
    {
        ConnectionBuilder::new()
    }
}

impl<P> ConnectionBuilder<NoHost, P> {
    /// Records the host, advancing the host typestate.
    pub fn host(self, host: &str) -> (b: ConnectionBuilder<HasHost, P>)
        ensures
            b.spec_host() matches Some(h) && h@ == host@,
            b.spec_port() == self.spec_port(),
            b.spec_use_tls() == self.spec_use_tls(),
            b.spec_pool_size() == self.spec_pool_size(),
    {
        ConnectionBuilder {
            host: Some(host.to_owned()),
            port: self.port,
            use_tls: self.use_tls,
            pool_size: self.pool_size,
            _host_state: PhantomData,
            _port_state: PhantomData,
        }
    }
}

impl<H> ConnectionBuilder<H, NoPort> {
    /// Records the port, advancing the port typestate.
    pub fn port(self, port: u16) -> (b: ConnectionBuilder<H, HasPort>)
        ensures
            b.spec_port() == Some(port),
            b.spec_host() == self.spec_host(),
            b.spec_use_tls() == self.spec_use_tls(),
            b.spec_pool_size() == self.spec_pool_size(),
    {
        ConnectionBuilder {
            host: self.host,
            port: Some(port),
            use_tls: self.use_tls,
            pool_size: self.pool_size,
            _host_state: PhantomData,
            _port_state: PhantomData,
        }
    }
}

impl ConnectionBuilder<HasHost, HasPort> {
    /// Assembles the connection.  The typestate guarantees that every
    /// path to this type went through `host` and `port`, whose
    /// postconditions supply the precondition here.
    pub fn build(self) -> (c: Connection)
        requires
            self.spec_host() is Some,
            self.spec_port() is Some,
        ensures
            c.host == self.spec_host()->Some_0,
            c.port == self.spec_port()->Some_0,
            c.use_tls == self.spec_use_tls(),
            c.pool_size == self.spec_pool_size(),
    {
        Connection {
            host: self.host.unwrap(),
            port: self.port.unwrap(),
            use_tls: self.use_tls,
            pool_size: self.pool_size,
        }
    }
}

} // verus!
