use mesh_parsers::NodeKind;
use mesh_parsers::languages::ruby::RubyExtractor;
use tree_sitter::Parser;

fn parser() -> Parser {
    let mut parser = Parser::new();
    let lang = tree_sitter_ruby::LANGUAGE.into();
    parser.set_language(&lang).unwrap();
    parser
}

#[test]
fn test_ruby_extractor_controller_actions() {
    let code = r#"
class UsersController < ApplicationController
  def index
    @users = User.all
  end

  def show
    @user = User.find(params[:id])
  end

  private

  def initialize
  end
end
"#;
    let mut p = parser();
    let tree = p.parse(code, None).expect("parse");
    let nodes = RubyExtractor::extract(
        "app/controllers/users_controller.rb",
        code,
        2,
        "",
        &tree,
    );

    let find = |name: &str| nodes.iter().find(|n| n.name == name);
    assert_eq!(
        find("UsersController").unwrap().kind,
        NodeKind::ServiceClass
    );
    assert_eq!(find("index").unwrap().kind, NodeKind::HttpEndpoint);
    assert_eq!(find("show").unwrap().kind, NodeKind::HttpEndpoint);
    assert_eq!(find("initialize").unwrap().kind, NodeKind::ServiceClass);
    assert!(nodes.iter().all(|n| n.repo_id == 2));
}

#[test]
fn test_ruby_extractor_module_is_interface() {
    let code = "module Authenticatable\n  def authenticate\n  end\nend\n";
    let mut p = parser();
    let tree = p.parse(code, None).expect("parse");
    let nodes =
        RubyExtractor::extract("app/models/concerns/auth.rb", code, 0, "", &tree);
    assert_eq!(
        nodes
            .iter()
            .find(|n| n.name == "Authenticatable")
            .unwrap()
            .kind,
        NodeKind::Interface
    );
}

#[test]
fn test_ruby_extractor_routes() {
    let code = r#"
Rails.application.routes.draw do
  get '/users', to: 'users#index'
  resources :posts
end
"#;
    let mut p = parser();
    let tree = p.parse(code, None).expect("parse");
    let nodes = RubyExtractor::extract("config/routes.rb", code, 0, "", &tree);
    assert!(nodes
        .iter()
        .any(|n| n.name == "GET /users" && n.kind == NodeKind::HttpEndpoint));
    assert!(nodes
        .iter()
        .any(|n| n.name == "resources :posts" && n.kind == NodeKind::HttpEndpoint));
}

#[test]
fn test_ruby_extractor_plain_class_not_controller() {
    let code = "class Widget\n  def price\n    10\n  end\nend\n";
    let mut p = parser();
    let tree = p.parse(code, None).expect("parse");
    let nodes = RubyExtractor::extract("app/models/widget.rb", code, 0, "", &tree);
    assert_eq!(
        nodes.iter().find(|n| n.name == "price").unwrap().kind,
        NodeKind::ServiceClass
    );
}
