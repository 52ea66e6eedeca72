use munchrs::parser::extractor::parse_file;
use munchrs::parser::textops::clean_comment_markers;

#[test]
fn test_elixir_module_with_functions() {
    let code = r#"
defmodule MyApp.Accounts do
  @doc """
  Creates a user.
  """
  def create_user(attrs \\ %{}) do
    Repo.insert(attrs)
  end

  defp validate(changeset) do
    changeset
  end
end
"#;
    let symbols = parse_file(code, "lib/accounts.ex", "elixir");

    let module = symbols.iter().find(|s| s.kind == "class").unwrap();
    assert_eq!(module.name, "MyApp.Accounts");
    assert_eq!(module.signature, "defmodule MyApp.Accounts");

    let create = symbols.iter().find(|s| s.name == "create_user").unwrap();
    assert_eq!(create.kind, "method");
    assert_eq!(create.qualified_name, "MyApp.Accounts.create_user");
    assert!(create.signature.starts_with("def create_user"));
    assert!(create.docstring.contains("Creates a user."));

    let validate = symbols.iter().find(|s| s.name == "validate").unwrap();
    assert_eq!(validate.kind, "method");
    assert_eq!(validate.qualified_name, "MyApp.Accounts.validate");
    assert!(validate.signature.starts_with("defp validate"));
}

#[test]
fn test_elixir_defstruct_and_defimpl() {
    let code = r#"
defmodule User do
  defstruct [:name, :email]

  defimpl String.Chars, for: __MODULE__ do
    def to_string(user), do: user.name
  end
end
"#;
    let symbols = parse_file(code, "lib/user.ex", "elixir");

    assert!(symbols.iter().any(|s| s.kind == "type" && s.name == "defstruct"));
    assert!(symbols.iter().any(|s| s.kind == "type" && s.name == "String.Chars"));
    assert!(symbols.iter().any(|s| s.kind == "method" && s.name == "to_string"));
}

#[test]
fn test_elixir_defmacro_defdelegate_defguard() {
    let code = r#"
defmodule MyApp do
  defmacro __using__(opts) do
    quote do: use(MyApp.Base)
  end

  defdelegate count(list), to: Enum

  defguard is_admin(user) when user.role == :admin
end
"#;
    let symbols = parse_file(code, "lib/my_app.ex", "elixir");

    let mac = symbols.iter().find(|s| s.name == "__using__").unwrap();
    assert_eq!(mac.kind, "method");

    let deleg = symbols.iter().find(|s| s.name == "count").unwrap();
    assert_eq!(deleg.kind, "method");

    let guard = symbols.iter().find(|s| s.name == "is_admin").unwrap();
    assert_eq!(guard.kind, "method");
}

#[test]
fn test_elixir_moduledoc() {
    let code = r#"
defmodule MyApp.Accounts do
  @moduledoc """
  Handles accounts.
  """
end
"#;
    let symbols = parse_file(code, "lib/accounts.ex", "elixir");
    let module = symbols.iter().find(|s| s.kind == "class").unwrap();
    assert!(module.docstring.contains("Handles accounts."));
}

#[test]
fn test_erlang_functions_and_types() {
    let code = r#"
-module(my_server).
-export([start_link/1, init/1]).

-type state() :: #{count => integer()}.

-record(config, {port, host}).

%% Starts the server.
start_link(Args) ->
    gen_server:start_link(?MODULE, Args, []).

init(Args) ->
    {ok, #config{port=8080}}.
"#;
    let symbols = parse_file(code, "src/my_server.erl", "erlang");

    let start_link = symbols.iter().find(|s| s.name == "start_link").unwrap();
    assert_eq!(start_link.kind, "function");
    assert_eq!(start_link.qualified_name, "my_server.start_link");
    assert!(start_link.docstring.contains("Starts the server."));

    let init = symbols.iter().find(|s| s.name == "init").unwrap();
    assert_eq!(init.kind, "function");
    assert_eq!(init.qualified_name, "my_server.init");

    let state_type = symbols.iter().find(|s| s.name == "state").unwrap();
    assert_eq!(state_type.kind, "type");

    let record = symbols.iter().find(|s| s.name == "config").unwrap();
    assert_eq!(record.kind, "type");
}

#[test]
fn test_erlang_comment_markers() {
    assert_eq!(clean_comment_markers("%% @doc Starts the server."), "@doc Starts the server.");
    assert_eq!(clean_comment_markers("% simple comment"), "simple comment");
}
