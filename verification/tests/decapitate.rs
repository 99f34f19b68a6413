use mesh_parsers::{AstDecapitator, AstGuard, LanguageKind};
use tree_sitter::Parser;

#[test]
fn test_rust_decapitation() {
    let code = r#"
/// Contract docstring to keep
fn authenticate_user(id: u64) -> bool {
    let mut x = 1;
    for _ in 0..100 {
        x += 1;
    }
    x > 50
}
"#;
    let mut parser = Parser::new();
    let lang = tree_sitter_rust::LANGUAGE.into();
    parser.set_language(&lang).unwrap();

    let decapitated = AstDecapitator::decapitate(code, LanguageKind::Rust, &mut parser, false);
    assert!(decapitated.contains("/// Contract docstring to keep"));
    assert!(decapitated.contains("fn authenticate_user(id: u64) -> bool { /* stripped */ }"));
    assert!(!decapitated.contains("x > 50"));
}

#[test]
fn test_cpp_decapitation() {
    let code = r#"
/// Keep this doc comment
bool AuthService::Authenticate(const std::string& token) {
    if (token.empty()) {
        return false;
    }
    return validate(token);
}
"#;
    let decapitated = AstDecapitator::decapitate_auto(code, LanguageKind::Cpp, false);
    assert!(decapitated.contains("/// Keep this doc comment"));
    assert!(decapitated.contains(
        "bool AuthService::Authenticate(const std::string& token) { /* stripped */ }"
    ));
    assert!(!decapitated.contains("validate(token)"));
    assert_eq!(LanguageKind::from_path("include/auth.h"), LanguageKind::Cpp);
    assert_eq!(LanguageKind::from_path("src/auth.cc"), LanguageKind::Cpp);
    assert_eq!(LanguageKind::Cpp.as_str(), "cpp");
}

#[test]
fn test_typescript_decapitation() {
    let code = r#"
export class AuthController {
    @GrpcMethod('AuthService', 'Login')
    async login(req: Request): Promise<Response> {
        const token = jwt.sign(req.user);
        return { token };
    }
}
"#;
    let mut parser = Parser::new();
    let lang = tree_sitter_typescript::LANGUAGE_TYPESCRIPT.into();
    parser.set_language(&lang).unwrap();

    let decapitated =
        AstDecapitator::decapitate(code, LanguageKind::TypeScript, &mut parser, false);
    assert!(decapitated.contains("@GrpcMethod('AuthService', 'Login')"));
    assert!(
        decapitated.contains("async login(req: Request): Promise<Response> { /* stripped */ }")
    );
    assert!(!decapitated.contains("jwt.sign"));
}

#[test]
fn test_java_decapitation() {
    let code = r#"
@RestController
public class AuthController {
    @PostMapping("/login")
    public ResponseEntity<TokenResponse> login(@RequestBody LoginRequest req) {
        String token = authService.generate(req);
        return ResponseEntity.ok(new TokenResponse(token));
    }
}
"#;
    let mut parser = Parser::new();
    let lang = tree_sitter_java::LANGUAGE.into();
    parser.set_language(&lang).unwrap();

    let decapitated = AstDecapitator::decapitate(code, LanguageKind::Java, &mut parser, false);
    assert!(decapitated.contains("@RestController"));
    assert!(decapitated.contains("@PostMapping(\"/login\")"));
    assert!(decapitated.contains("public ResponseEntity<TokenResponse> login(@RequestBody LoginRequest req) { /* stripped */ }"));
    assert!(!decapitated.contains("authService.generate"));
}

#[test]
fn test_go_decapitation() {
    let code = r#"
package auth

func (s *AuthServer) Authenticate(ctx context.Context, req *AuthRequest) (*AuthResponse, error) {
    token, err := s.jwt.Sign(req.UserId)
    if err != nil {
        return nil, err
    }
    return &AuthResponse{Token: token}, nil
}
"#;
    let mut parser = Parser::new();
    let lang = tree_sitter_go::LANGUAGE.into();
    parser.set_language(&lang).unwrap();

    let decapitated = AstDecapitator::decapitate(code, LanguageKind::Go, &mut parser, false);
    assert!(decapitated.contains("func (s *AuthServer) Authenticate(ctx context.Context, req *AuthRequest) (*AuthResponse, error) { /* stripped */ }"));
    assert!(!decapitated.contains("s.jwt.Sign"));
}

#[test]
fn test_python_decapitation() {
    let code = r#"
class AuthService:
    @tracer.trace("login")
    def login(self, username: str, secret: str) -> dict:
        token = generate_jwt(username)
        return {"token": token}
"#;
    let mut parser = Parser::new();
    let lang = tree_sitter_python::LANGUAGE.into();
    parser.set_language(&lang).unwrap();

    let decapitated =
        AstDecapitator::decapitate(code, LanguageKind::Python, &mut parser, false);
    assert!(decapitated.contains("@tracer.trace(\"login\")"));
    assert!(decapitated.contains("def login(self, username: str, secret: str) -> dict:"));
    assert!(decapitated.contains("..."));
    assert!(!decapitated.contains("generate_jwt"));
}

#[test]
fn test_python_docstring_preserved() {
    let code = r#"
class AuthService:
    def login(self, username, secret):
        # leading comment
        """Authenticate a user.

        Returns a dict with a signed `token`.
        """
        token = generate_jwt(username)
        return {"token": token}

    def ping(self):
        """Only a docstring."""

    def short(self): """One-liner."""; return compute()

    def plain(self):
        return helper()
"#;
    let mut parser = Parser::new();
    let lang = tree_sitter_python::LANGUAGE.into();
    parser.set_language(&lang).unwrap();

    let out = AstDecapitator::decapitate(code, LanguageKind::Python, &mut parser, false);
    assert!(out.contains("\"\"\"Authenticate a user.\n\n        Returns a dict with a signed `token`.\n        \"\"\"\n        ..."), "{out}");
    assert!(!out.contains("generate_jwt"), "{out}");
    assert!(
        out.contains("def ping(self):\n        \"\"\"Only a docstring.\"\"\""),
        "{out}"
    );
    assert!(
        out.contains("def short(self): \"\"\"One-liner.\"\"\"; ..."),
        "{out}"
    );
    assert!(!out.contains("compute()"), "{out}");
    assert!(out.contains("def plain(self):\n         ..."), "{out}");
    assert!(!out.contains("helper()"), "{out}");
}

#[test]
fn test_kotlin_decapitation() {
    let code = r#"
@RestController
class AuthController {
    @PostMapping("/login")
    fun login(req: LoginRequest): TokenResponse {
        val token = authService.generate(req)
        return TokenResponse(token)
    }

    fun shortcut(): Int = 42
}
"#;
    let mut parser = Parser::new();
    let lang = tree_sitter_kotlin_ng::LANGUAGE.into();
    parser.set_language(&lang).unwrap();
    let decapitated =
        AstDecapitator::decapitate(code, LanguageKind::Kotlin, &mut parser, false);
    assert!(decapitated.contains("@RestController"));
    assert!(decapitated.contains("@PostMapping(\"/login\")"));
    assert!(
        decapitated.contains("fun login(req: LoginRequest): TokenResponse { /* stripped */ }")
    );
    assert!(!decapitated.contains("authService.generate"));
    assert!(decapitated.contains("fun shortcut(): Int = /* stripped */"));
    assert_eq!(LanguageKind::from_path("Foo.kt"), LanguageKind::Kotlin);
    assert_eq!(
        LanguageKind::from_path("build.gradle.kts"),
        LanguageKind::Kotlin
    );
    assert_eq!(LanguageKind::Kotlin.as_str(), "kotlin");
}

#[test]
fn test_csharp_decapitation() {
    let code = r#"
[ApiController]
public class AuthController : ControllerBase
{
    [HttpPost("/login")]
    public TokenResponse Login(LoginRequest req)
    {
        var token = authService.Generate(req);
        return new TokenResponse(token);
    }
}
"#;
    let mut parser = Parser::new();
    let lang = tree_sitter_c_sharp::LANGUAGE.into();
    parser.set_language(&lang).unwrap();
    let decapitated =
        AstDecapitator::decapitate(code, LanguageKind::CSharp, &mut parser, false);
    assert!(decapitated.contains("[ApiController]"));
    assert!(decapitated.contains("[HttpPost(\"/login\")]"));
    assert!(decapitated.contains("public TokenResponse Login(LoginRequest req)"));
    assert!(decapitated.contains("{ /* stripped */ }"));
    assert!(!decapitated.contains("authService.Generate"));
    assert_eq!(LanguageKind::from_path("Auth.cs"), LanguageKind::CSharp);
    assert_eq!(LanguageKind::CSharp.as_str(), "csharp");
}

#[test]
fn test_ruby_decapitation() {
    let code = r#"
class AuthService
  # Contract docstring to keep
  def authenticate(token)
    return false if token.nil?
    validate(token)
  end
end
"#;
    let mut parser = Parser::new();
    let lang = tree_sitter_ruby::LANGUAGE.into();
    parser.set_language(&lang).unwrap();
    let decapitated = AstDecapitator::decapitate(code, LanguageKind::Ruby, &mut parser, false);
    assert!(decapitated.contains("# Contract docstring to keep"));
    assert!(decapitated.contains("def authenticate(token)"));
    assert!(decapitated.contains("# stripped"));
    assert!(!decapitated.contains("validate(token)"));
    assert_eq!(
        LanguageKind::from_path("app/models/auth.rb"),
        LanguageKind::Ruby
    );
    assert_eq!(LanguageKind::Ruby.as_str(), "ruby");
}

#[test]
fn test_php_decapitation() {
    let code = r#"<?php
class AuthController {
    #[Route('/login')]
    public function login($req) {
        $token = $this->authService->generate($req);
        return $token;
    }
}
"#;
    let mut parser = Parser::new();
    let lang = tree_sitter_php::LANGUAGE_PHP.into();
    parser.set_language(&lang).unwrap();
    let decapitated = AstDecapitator::decapitate(code, LanguageKind::Php, &mut parser, false);
    assert!(decapitated.contains("#[Route('/login')]"));
    assert!(decapitated.contains("public function login($req) { /* stripped */ }"));
    assert!(!decapitated.contains("authService->generate"));
    assert_eq!(
        LanguageKind::from_path("src/Controller/Auth.php"),
        LanguageKind::Php
    );
    assert_eq!(LanguageKind::Php.as_str(), "php");
}

#[test]
fn test_swift_decapitation() {
    let code = r#"
class AuthService {
    func authenticate(token: String) -> Bool {
        if token.isEmpty {
            return false
        }
        return validate(token)
    }
}
"#;
    let mut parser = Parser::new();
    let lang = tree_sitter_swift::LANGUAGE.into();
    parser.set_language(&lang).unwrap();
    let decapitated = AstDecapitator::decapitate(code, LanguageKind::Swift, &mut parser, false);
    assert!(decapitated.contains("func authenticate(token: String) -> Bool { /* stripped */ }"));
    assert!(!decapitated.contains("validate(token)"));
    assert_eq!(
        LanguageKind::from_path("Sources/App/Auth.swift"),
        LanguageKind::Swift
    );
    assert_eq!(LanguageKind::Swift.as_str(), "swift");
}

#[test]
fn test_scala_decapitation() {
    let code = r#"
class AuthService {
  def authenticate(token: String): Boolean = {
    val valid = token.nonEmpty
    valid
  }
}
"#;
    let mut parser = Parser::new();
    let lang = tree_sitter_scala::LANGUAGE.into();
    parser.set_language(&lang).unwrap();
    let decapitated = AstDecapitator::decapitate(code, LanguageKind::Scala, &mut parser, false);
    assert!(
        decapitated.contains("def authenticate(token: String): Boolean = { /* stripped */ }")
    );
    assert!(!decapitated.contains("token.nonEmpty"));

    let concise = "object Foo {\n  def bar(x: Int): Int = x + 1\n}\n";
    let mut parser2 = Parser::new();
    parser2.set_language(&lang).unwrap();
    let decapitated_concise =
        AstDecapitator::decapitate(concise, LanguageKind::Scala, &mut parser2, false);
    assert!(decapitated_concise.contains("def bar(x: Int): Int = /* stripped */"));
    assert!(!decapitated_concise.contains("x + 1"));

    assert_eq!(
        LanguageKind::from_path("src/main/scala/Auth.scala"),
        LanguageKind::Scala
    );
    assert_eq!(LanguageKind::Scala.as_str(), "scala");
}

#[test]
fn test_decapitate_auto_preserves_on_include_body() {
    let code = "fn compute() -> i32 { let x = 42; x * 2 }";
    let out = AstDecapitator::decapitate_auto(code, LanguageKind::Rust, true);
    assert_eq!(out, code);
}

#[test]
fn test_typescript_arrow_functions_decapitation() {
    let code = r#"
export const processRefund = async (req: Request): Promise<Response> => {
    const amount = req.body.amount;
    for (let i = 0; i < 100; i++) {
        total += i;
    }
    return { status: "ok" };
};

export const computeDiscount = (rate: number) => rate * 0.15;
"#;
    let mut parser = Parser::new();
    let lang = tree_sitter_typescript::LANGUAGE_TYPESCRIPT.into();
    parser.set_language(&lang).unwrap();

    let decapitated =
        AstDecapitator::decapitate(code, LanguageKind::TypeScript, &mut parser, false);

    assert!(
        decapitated.contains("export const processRefund = async (req: Request): Promise<Response> => { /* stripped */ };"),
        "Arrow function with statement block body must be decapitated to stripped block"
    );
    assert!(
        !decapitated.contains("req.body.amount"),
        "Arrow function imperative body must not leak"
    );
    assert!(
        decapitated
            .contains("export const computeDiscount = (rate: number) => /* stripped */;"),
        "Concise arrow function must be decapitated"
    );
    assert!(!decapitated.contains("rate * 0.15"));
}

#[test]
fn test_deeply_nested_cst_does_not_overflow_stack() {
    let deep_chain = (0..5_000).map(|_| "1").collect::<Vec<_>>().join(" + ");
    let code = format!("const DEEP: i32 = {deep_chain};");

    assert!(
        AstGuard::max_nesting_depth(code.as_bytes()) <= AstGuard::MAX_NESTING_DEPTH,
        "test fixture must pass the lexical guard to actually exercise the CST-depth cap"
    );

    let mut parser = Parser::new();
    let lang = tree_sitter_rust::LANGUAGE.into();
    parser.set_language(&lang).unwrap();

    let _ = AstDecapitator::decapitate(&code, LanguageKind::Rust, &mut parser, false);
}

#[test]
fn test_parser_timeout_bounded_stub() {
    assert!(AstDecapitator::BOUNDED_ERROR_STUB.len() <= 256);

    let mut parser = Parser::new();
    let lang = tree_sitter_rust::LANGUAGE.into();
    parser.set_language(&lang).unwrap();
    parser.set_timeout_micros(1);

    let huge_code =
        "fn heavy_computation() { ".to_string() + &"let x = 1; ".repeat(10_000) + "}";
    let result = AstDecapitator::decapitate(&huge_code, LanguageKind::Rust, &mut parser, false);

    assert_eq!(result, AstDecapitator::BOUNDED_ERROR_STUB);
    assert!(result.len() <= 256);
}

#[test]
fn test_typescript_inferred_return_type_synthesis() {
    let code = r#"
export const fetchBillingRecord = (tenantId: string) => {
    return { id: "rec_123", status: "PAID", balance: 0.00 };
};

export const getUserAccount = (id: string) => ({
    id,
    email: "user@corp.com",
    tier: "ENTERPRISE",
});
"#;
    let mut parser = Parser::new();
    let lang = tree_sitter_typescript::LANGUAGE_TYPESCRIPT.into();
    parser.set_language(&lang).unwrap();

    let decapitated =
        AstDecapitator::decapitate(code, LanguageKind::TypeScript, &mut parser, false);

    assert!(
        decapitated.contains("export const fetchBillingRecord = (tenantId: string): { balance: any, id: any, status: any } => { /* stripped */ };"),
        "Should synthesize inferred return type for statement block arrow function: got: {}",
        decapitated
    );

    assert!(
        decapitated.contains("export const getUserAccount = (id: string): { email: any, id: any, tier: any } => /* stripped */;"),
        "Should synthesize inferred return type for concise arrow function: got: {}",
        decapitated
    );

    assert!(!decapitated.contains("rec_123"));
    assert!(!decapitated.contains("user@corp.com"));
}
