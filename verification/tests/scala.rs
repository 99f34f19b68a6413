use mesh_parsers::NodeKind;
use mesh_parsers::languages::scala::ScalaExtractor;
use tree_sitter::Parser;

fn parser() -> Parser {
    let mut parser = Parser::new();
    let lang = tree_sitter_scala::LANGUAGE.into();
    parser.set_language(&lang).unwrap();
    parser
}

#[test]
fn test_scala_extractor_class_trait_object() {
    let code = r#"
trait Payable {
  def charge(amount: Int): Boolean
}

class PaymentService extends Payable {
  def charge(amount: Int): Boolean = {
    amount > 0
  }
}

object PaymentApp {
  def main(args: Array[String]): Unit = ()
}
"#;
    let mut p = parser();
    let nodes = ScalaExtractor::extract("src/main/scala/PaymentService.scala", code, 5, "", &mut p);
    let find = |name: &str| nodes.iter().find(|n| n.name == name);
    assert_eq!(find("Payable").unwrap().kind, NodeKind::Interface);
    assert_eq!(find("PaymentService").unwrap().kind, NodeKind::ServiceClass);
    assert_eq!(find("PaymentApp").unwrap().kind, NodeKind::ServiceClass);
    assert!(nodes.iter().all(|n| n.repo_id == 5));
}

#[test]
fn test_scala_extractor_akka_route() {
    let code = r#"
object Routes {
  val route = path("users") {
    get {
      complete("ok")
    }
  }
}
"#;
    let mut p = parser();
    let nodes = ScalaExtractor::extract("src/main/scala/Routes.scala", code, 0, "", &mut p);
    assert!(nodes
        .iter()
        .any(|n| n.name == "GET users" && n.kind == NodeKind::HttpEndpoint));
}
