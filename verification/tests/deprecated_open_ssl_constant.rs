use nitrocop::cop::lint::deprecated_open_ssl_constant::{
    DeprecatedOpenSSLConstant, SslArg, SslCall, SslConstant,
};
use nitrocop::correction::{Correction, CorrectionSet};
use nitrocop::diagnostic::Diagnostic;
use nitrocop::parse::source::SourceFile;
use ruby_prism::Visit;

fn dynamic(n: &ruby_prism::Node<'_>) -> bool {
    n.as_local_variable_read_node().is_some()
        || n.as_instance_variable_read_node().is_some()
        || n.as_class_variable_read_node().is_some()
        || n.as_global_variable_read_node().is_some()
        || n.as_call_node().is_some()
        || n.as_constant_read_node().is_some()
        || n.as_constant_path_node().is_some()
}

fn ssl_constant(n: &ruby_prism::Node<'_>) -> Option<SslConstant> {
    let path = n.as_constant_path_node()?;
    let algo = path.name()?.as_slice().to_vec();
    let mut parent = None;
    let mut grandparent = None;
    if let Some(p) = path.parent() {
        if let Some(pp) = p.as_constant_path_node() {
            if let Some(pn) = pp.name() {
                parent = Some((
                    pp.location().start() as usize,
                    pp.location().end() as usize,
                    pn.as_slice().to_vec(),
                ));
                if let Some(g) = pp.parent() {
                    if let Some(r) = g.as_constant_read_node() {
                        grandparent = Some(r.name().as_slice().to_vec());
                    } else if let Some(gp) = g.as_constant_path_node() {
                        grandparent = gp.name().map(|x| x.as_slice().to_vec());
                    }
                }
            }
        }
    }
    Some(SslConstant {
        start: n.location().start() as usize,
        end: n.location().end() as usize,
        algo,
        parent,
        grandparent,
    })
}

#[derive(Default)]
struct Calls {
    out: Vec<SslCall>,
}

impl<'pr> Visit<'pr> for Calls {
    fn visit_call_node(&mut self, node: &ruby_prism::CallNode<'pr>) {
        self.out.push(SslCall {
            name: node.name().as_slice().to_vec(),
            start: node.location().start() as usize,
            end: node.location().end() as usize,
            receiver: node.receiver().and_then(|r| ssl_constant(&r)),
            args: node
                .arguments()
                .map(|a| {
                    a.arguments()
                        .iter()
                        .map(|x| SslArg {
                            start: x.location().start() as usize,
                            end: x.location().end() as usize,
                            dynamic: dynamic(&x),
                        })
                        .collect()
                })
                .unwrap_or_default(),
        });
        ruby_prism::visit_call_node(self, node);
    }
}

fn run(src: &[u8]) -> (Vec<Diagnostic>, Vec<Correction>) {
    let result = ruby_prism::parse(src);
    let mut v = Calls::default();
    v.visit(&result.node());
    let source = SourceFile::from_bytes("test.rb", src.to_vec());
    let mut d = Vec::new();
    let mut c = Vec::new();
    for call in &v.out {
        DeprecatedOpenSSLConstant.check_call(&source, call, &mut d, &mut c, true);
    }
    (d, c)
}

fn corrected(src: &[u8]) -> String {
    let (_d, c) = run(src);
    String::from_utf8(CorrectionSet::from_vec(c).apply(src)).unwrap()
}

#[test]
fn cipher_with_size_and_mode() {
    let (d, _) = run(b"OpenSSL::Cipher::AES.new(128, :GCM)\n");
    assert_eq!(d.len(), 1);
    assert_eq!(d[0].message, "Use `OpenSSL::Cipher` instead of `OpenSSL::Cipher::AES`.");
    assert_eq!(corrected(b"OpenSSL::Cipher::AES.new(128, :GCM)\n"), "OpenSSL::Cipher.new('aes-128-gcm')\n");
}

#[test]
fn cipher_defaults_and_chunked_names() {
    assert_eq!(corrected(b"OpenSSL::Cipher::AES.new\n"), "OpenSSL::Cipher.new('aes-cbc')\n");
    assert_eq!(corrected(b"OpenSSL::Cipher::AES128.new\n"), "OpenSSL::Cipher.new('aes-128-cbc')\n");
    assert_eq!(corrected(b"OpenSSL::Cipher::DES.new\n"), "OpenSSL::Cipher.new('des')\n");
    assert_eq!(corrected(b"OpenSSL::Cipher::Cipher.new('aes-256-cbc')\n"), "OpenSSL::Cipher.new('aes-256-cbc')\n");
}

#[test]
fn digest_new_and_digest() {
    assert_eq!(corrected(b"OpenSSL::Digest::SHA256.new\n"), "OpenSSL::Digest.new('SHA256')\n");
    assert_eq!(
        corrected(b"OpenSSL::Digest::SHA256.digest('foo')\n"),
        "OpenSSL::Digest.digest('SHA256', 'foo')\n"
    );
}

#[test]
fn not_deprecated() {
    assert!(run(b"OpenSSL::Digest::Digest.new('SHA1')\n").0.is_empty());
    assert!(run(b"OpenSSL::Cipher.new('aes-128-cbc')\n").0.is_empty());
    assert!(run(b"OpenSSL::Cipher::AES.new(size)\n").0.is_empty());
    assert!(run(b"Foo::Cipher::AES.new\n").0.is_empty());
}
