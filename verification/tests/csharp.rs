use mesh_parsers::ServicePackages;
use mesh_parsers::NodeKind;
use mesh_parsers::languages::csharp::CSharpExtractor;
use tree_sitter::Parser;

fn parser() -> Parser {
    let mut parser = Parser::new();
    let lang = tree_sitter_c_sharp::LANGUAGE.into();
    parser.set_language(&lang).unwrap();
    parser
}

#[test]
fn test_csharp_extractor_controller_and_interface() {
    let code = r#"
namespace Mesh.Billing;

public interface IBillingService
{
    Task<Bill> GetBill(int id);
}

[ApiController]
[Route("api/[controller]")]
public class BillingController : ControllerBase
{
    [HttpGet("/bills")]
    public IActionResult GetBills()
    {
        return Ok();
    }

    [HttpPost("/bills")]
    public IActionResult CreateBill()
    {
        return Ok();
    }
}
"#;
    let mut p = parser();
    let nodes = CSharpExtractor::extract(
        "services/billing/BillingController.cs",
        code,
        2,
        &ServicePackages::new(""),
        &mut p,
    );

    let find = |name: &str| nodes.iter().find(|n| n.name == name);

    assert_eq!(
        find("IBillingService").expect("interface").kind,
        NodeKind::Interface
    );
    assert_eq!(
        find("BillingController").expect("controller class").kind,
        NodeKind::ServiceClass
    );
    assert_eq!(
        find("GetBills").expect("http get").kind,
        NodeKind::HttpEndpoint
    );
    assert_eq!(
        find("CreateBill").expect("http post").kind,
        NodeKind::HttpEndpoint
    );
    assert!(nodes.iter().all(|n| n.repo_id == 2));
    assert_eq!(
        find("BillingController").unwrap().package.as_str(),
        "Mesh.Billing"
    );
}

#[test]
fn test_csharp_extractor_plain_method_is_service_class() {
    let code = r#"
namespace Mesh.Util;

public class MathHelper
{
    public int Add(int a, int b)
    {
        return a + b;
    }
}
"#;
    let mut p = parser();
    let nodes = CSharpExtractor::extract("MathHelper.cs", code, 0, &ServicePackages::new(""), &mut p);
    let add = nodes.iter().find(|n| n.name == "Add").expect("method");
    assert_eq!(add.kind, NodeKind::ServiceClass);
}

#[test]
fn test_csharp_confluent_kafka_produce_and_subscribe_extraction() {
    let code = r#"
namespace Mesh.Orders;

public class OrderEventService
{
    public async Task EmitOrderCreated(Order order)
    {
        await _producer.ProduceAsync("orders-created", new Message<string, string> { Value = order.Id });
    }

    public void StartListening()
    {
        _consumer.Subscribe("orders-incoming");
    }
}
"#;
    let mut p = parser();
    let tree = p.parse(code, None).expect("parse");
    let (nodes, relations) = CSharpExtractor::extract_with_relations(
        "OrderEventService.cs",
        code,
        0,
        &ServicePackages::new(""),
        &tree,
    );

    assert_eq!(nodes.len(), 3); // Class + 2 methods
    assert_eq!(
        relations.producers.len(),
        1,
        "expected 1 producer, got: {:?}",
        relations.producers
    );
    assert_eq!(relations.producers[0].1.as_str(), "orders-created");
    assert_eq!(
        nodes[relations.producers[0].0].name.as_str(),
        "EmitOrderCreated"
    );

    assert_eq!(
        relations.consumers.len(),
        1,
        "expected 1 consumer, got: {:?}",
        relations.consumers
    );
    assert_eq!(relations.consumers[0].1.as_str(), "orders-incoming");
    assert_eq!(
        nodes[relations.consumers[0].0].name.as_str(),
        "StartListening"
    );
}

#[test]
fn kafka_call_with_identifier_topic_records_nothing() {
    let code = r#"
namespace Mesh.Orders;

public class OrderEventService
{
    public async Task EmitOrderCreated(string topic, Order order)
    {
        await _producer.ProduceAsync(topic, new Message<string, string> { Value = order.Id });
    }
}
"#;
    let mut p = parser();
    let tree = p.parse(code, None).expect("parse");
    let (_, relations) = CSharpExtractor::extract_with_relations(
        "OrderEventService.cs",
        code,
        0,
        &ServicePackages::new(""),
        &tree,
    );
    assert!(
        relations.producers.is_empty(),
        "expected no fabricated topic from an identifier argument, got: {:?}",
        relations.producers
    );
}
